//! Running one kernel: allocate its outputs, describe its operands, launch,
//! and drop the descriptors.

use vstd::prelude::*;

use crate::context::AscendContext;
use crate::device::{
    AclTensor, Base, Call, DeviceBuffer, Entry, LaunchMode, TensorView, ACL_FLOAT, ACL_FLOAT16,
    ACL_INT32,
};
use crate::semantics::{
    computed, covered, element_size, elements, lemma_outputs_frame, lemma_run_append,
    lemma_write_whole, nd_view, read_through, run, undefined, DeviceState, TensorValue,
};
use crate::tensor::{element_count, lemma_elements, shape_fits};

verus! {

/// The shape and element type of a kernel output.
#[derive(Debug)]
pub struct Output {
    pub dims: Vec<i64>,
    pub dtype: u32,
}

/// What an [`Output`] says.
#[verifier::ext_equal]
pub struct OutputView {
    pub dims: Seq<i64>,
    pub dtype: u32,
}

impl View for Output {
    type V = OutputView;

    open spec fn view(&self) -> OutputView {
        OutputView { dims: self.dims@, dtype: self.dtype }
    }
}

impl OutputView {
    pub open spec fn fits(self) -> bool {
        &&& shape_fits(self.dims)
        &&& self.dtype == ACL_FLOAT16 || self.dtype == ACL_FLOAT || self.dtype == ACL_INT32
    }

    /// Size in bytes.
    pub open spec fn len(self) -> int {
        elements(self.dims) * element_size(self.dtype)
    }
}

/// Whether the outputs are allocated before or after the inputs are described.
#[derive(Debug, Clone, Copy, PartialEq, Eq, Structural)]
pub enum Order {
    OutputsFirst,
    InputsFirst,
}

pub open spec fn views(tensors: Seq<AclTensor>) -> Seq<TensorView> {
    Seq::new(tensors.len(), |i: int| tensors[i]@)
}

pub open spec fn output_views(outputs: Seq<Output>) -> Seq<OutputView> {
    Seq::new(outputs.len(), |i: int| outputs[i]@)
}

/// What a kernel reads through these descriptors.
pub open spec fn values(st: DeviceState, tensors: Seq<TensorView>) -> Seq<TensorValue> {
    Seq::new(tensors.len(), |i: int| read_through(tensors[i], st.value(tensors[i].buffer)))
}

/// The identifiers `first, first + 1, ..` of `n` things.
pub open spec fn ids(first: nat, n: nat) -> Seq<usize> {
    Seq::new(n, |i: int| (first + i) as usize)
}

pub open spec fn whole(id: nat, len: int) -> DeviceBuffer {
    DeviceBuffer { base: Base::Fresh(id as usize), offset: 0, len: len as usize }
}

pub open spec fn malloc_calls(first: nat, outputs: Seq<OutputView>) -> Seq<Call> {
    Seq::new(
        outputs.len(),
        |i: int|
            Call::Malloc {
                base: Base::Fresh((first + i) as usize),
                len: outputs[i].len() as usize,
            },
    )
}

pub open spec fn describe_calls(first: nat, tensors: Seq<TensorView>) -> Seq<Call> {
    Seq::new(
        tensors.len(),
        |i: int| Call::Describe { id: (first + i) as usize, tensor: tensors[i] },
    )
}

pub open spec fn output_tensors(first: nat, outputs: Seq<OutputView>) -> Seq<TensorView> {
    Seq::new(
        outputs.len(),
        |i: int|
            nd_view(
                whole((first + i) as nat, outputs[i].len()),
                outputs[i].dims,
                outputs[i].dtype,
            ),
    )
}

pub open spec fn undescribe_calls(first: nat, n: nat) -> Seq<Call> {
    Seq::new(n, |i: int| Call::Undescribe { id: (first + n - 1 - i) as usize })
}

/// The first output's identifier.
pub open spec fn first_output(issued: nat, order: Order, inputs: nat) -> nat {
    match order {
        Order::OutputsFirst => issued,
        Order::InputsFirst => issued + inputs,
    }
}

/// Every step that running a kernel records, from the next free identifier on.
#[verifier::opaque]
pub open spec fn kernel_calls(
    issued: nat,
    entry: Entry,
    order: Order,
    inputs: Seq<TensorView>,
    outputs: Seq<OutputView>,
    plan_op: Seq<char>,
    run_op: Seq<char>,
) -> Seq<Call> {
    let n = inputs.len();
    let m = outputs.len();
    let first = first_output(issued, order, n);
    let first_in: nat = match order {
        Order::OutputsFirst => issued + m,
        Order::InputsFirst => issued,
    };
    let prepare = match order {
        Order::OutputsFirst => malloc_calls(first, outputs) + describe_calls(first_in, inputs),
        Order::InputsFirst => describe_calls(first_in, inputs) + malloc_calls(first, outputs),
    };
    let launch = Call::Launch {
        entry,
        inputs: ids(first_in, n),
        outputs: ids(issued + n + m, m),
        mode: LaunchMode::TwoStage,
        plan_op,
        run_op,
    };
    let finish = undescribe_calls(issued + n + m, m) + (if entry is Cat {
        Seq::empty()
    } else {
        undescribe_calls(first_in, n)
    });
    prepare + describe_calls(issued + n + m, output_tensors(first, outputs)) + seq![launch] + finish
}

/// The state after a kernel has run: its outputs are new allocations that hold
/// what it computes from its inputs; nothing else changes.
pub open spec fn kernel_effect(
    st: DeviceState,
    first: nat,
    entry: Entry,
    inputs: Seq<TensorValue>,
    outputs: Seq<OutputView>,
) -> DeviceState {
    DeviceState {
        fresh: Map::new(
            |id: usize| st.fresh.contains_key(id) || first <= id < first + outputs.len(),
            |id: usize|
                if st.fresh.contains_key(id) {
                    st.fresh[id]
                } else {
                    computed(entry, inputs, id - first, outputs[id - first].len() as nat)
                },
        ),
        dirty: st.dirty.union(outputs_written(first, outputs.len())),
        issued: st.issued + inputs.len() + 2 * outputs.len(),
        ..st
    }
}

/// The allocations of `n` outputs from identifier `first` on.
pub open spec fn outputs_written(first: nat, n: nat) -> Set<Base> {
    Set::new(|b: Base| b matches Base::Fresh(id) && first <= id < first + n)
}

#[verifier::opaque]
spec fn allocated(st: DeviceState, outputs: Seq<OutputView>) -> DeviceState {
    DeviceState {
        fresh: Map::new(
            |id: usize| st.fresh.contains_key(id) || st.issued <= id < st.issued + outputs.len(),
            |id: usize|
                if st.fresh.contains_key(id) {
                    st.fresh[id]
                } else {
                    undefined(Base::Fresh(id), outputs[id - st.issued].len() as nat)
                },
        ),
        issued: st.issued + outputs.len(),
        ..st
    }
}

#[verifier::opaque]
spec fn described(st: DeviceState, tensors: Seq<TensorView>) -> DeviceState {
    DeviceState {
        tensors: Map::new(
            |id: usize| st.tensors.contains_key(id) || st.issued <= id < st.issued + tensors.len(),
            |id: usize|
                if st.tensors.contains_key(id) {
                    st.tensors[id]
                } else {
                    tensors[id - st.issued]
                },
        ),
        issued: st.issued + tensors.len(),
        ..st
    }
}

#[verifier::opaque]
spec fn undescribed(st: DeviceState, first: nat, n: nat) -> DeviceState {
    DeviceState {
        tensors: Map::new(
            |id: usize| st.tensors.contains_key(id) && !(first <= id < first + n),
            |id: usize| st.tensors[id],
        ),
        ..st
    }
}

/// Recording in two parts.
pub proof fn lemma_recorded(
    a: AscendContext,
    b: AscendContext,
    c: AscendContext,
    first: Seq<Call>,
    second: Seq<Call>,
)
    requires
        b.recorded(&a, first),
        c.recorded(&b, second),
    ensures
        c.recorded(&a, first + second),
{
    lemma_run_append(a.state(), first, second);
    assert(a.calls() + first + second =~= a.calls() + (first + second));
}

/// One more step of a known program.
pub proof fn lemma_recorded_next(
    a: AscendContext,
    b: AscendContext,
    c: AscendContext,
    all: Seq<Call>,
    done: int,
)
    requires
        0 <= done < all.len(),
        b.recorded(&a, all.take(done)),
        c.recorded(&b, seq![all[done]]),
    ensures
        c.recorded(&a, all.take(done + 1)),
{
    lemma_recorded(a, b, c, all.take(done), seq![all[done]]);
    assert(all.take(done) + seq![all[done]] =~= all.take(done + 1));
}

/// Recording in four parts, the last two at once.
proof fn lemma_recorded_parts(
    a: AscendContext,
    b: AscendContext,
    c: AscendContext,
    d: AscendContext,
    first: Seq<Call>,
    second: Seq<Call>,
    third: Seq<Call>,
    fourth: Seq<Call>,
)
    requires
        b.recorded(&a, first),
        c.recorded(&b, second),
        d.recorded(&c, third + fourth),
    ensures
        d.recorded(&a, first + second + third + fourth),
{
    lemma_recorded(a, b, c, first, second);
    lemma_recorded(a, c, d, first + second, third + fourth);
    assert(first + second + (third + fourth) =~= first + second + third + fourth);
}

pub proof fn lemma_recorded_nothing(a: AscendContext)
    requires
        a.wf(),
    ensures
        a.recorded(&a, Seq::empty()),
{
    assert(a.calls() + Seq::<Call>::empty() =~= a.calls());
    reveal(run);
}

fn malloc_all(ctx: &mut AscendContext, outputs: &Vec<Output>) -> (bufs: Vec<DeviceBuffer>)
    requires
        old(ctx).wf(),
        forall|i: int| 0 <= i < outputs@.len() ==> (#[trigger] outputs@[i])@.fits(),
    ensures
        bufs@.len() == outputs@.len(),
        forall|i: int|
            0 <= i < bufs@.len() ==> #[trigger] bufs@[i] == whole(
                (old(ctx).state().issued + i) as nat,
                outputs@[i]@.len(),
            ),
        forall|i: int| 0 <= i < outputs@.len() ==> 0 <= (#[trigger] outputs@[i])@.len() <= usize::MAX,
        old(ctx).state().issued + outputs@.len() <= usize::MAX + 1,
        final(ctx).recorded(
            old(ctx),
            malloc_calls(old(ctx).state().issued, output_views(outputs@)),
        ),
        final(ctx).state() == allocated(old(ctx).state(), output_views(outputs@)),
{
    let ghost st = ctx.state();
    let ghost all = output_views(outputs@);
    let mut bufs: Vec<DeviceBuffer> = Vec::new();
    let mut i: usize = 0;
    proof {
        reveal(allocated);
        ctx.lemma_safe();
        lemma_recorded_nothing(*ctx);
        assert(malloc_calls(st.issued, all.take(0)) =~= Seq::<Call>::empty());
        assert(allocated(st, all.take(0)) =~= st);
        assert(st.issued <= usize::MAX + 1) by {
            ctx.lemma_issued();
        }
    }
    while i < outputs.len()
        invariant
            i <= outputs@.len(),
            all == output_views(outputs@),
            st == old(ctx).state(),
            st.sane(),
            ctx.wf(),
            forall|j: int| 0 <= j < outputs@.len() ==> (#[trigger] outputs@[j])@.fits(),
            bufs@.len() == i,
            forall|j: int|
                0 <= j < i ==> #[trigger] bufs@[j] == whole((st.issued + j) as nat, all[j].len()),
            forall|j: int| 0 <= j < i ==> 0 <= (#[trigger] outputs@[j])@.len() <= usize::MAX,
            st.issued + i <= usize::MAX + 1,
            ctx.recorded(old(ctx), malloc_calls(st.issued, all.take(i as int))),
            ctx.state() == allocated(st, all.take(i as int)),
        decreases outputs@.len() - i,
    {
        let output = &outputs[i];
        assert(output@.fits());
        proof {
            lemma_elements(output@.dims);
        }
        let size: usize = if output.dtype == ACL_FLOAT16 {
            2
        } else {
            4
        };
        let count: i64 = element_count(&output.dims);
        let len: usize = count as usize * size;
        let ghost before = *ctx;
        let buf = ctx.malloc(len);
        bufs.push(buf);
        proof {
            reveal(allocated);
            let one = seq![Call::Malloc { base: buf.base, len }];
            lemma_recorded(
                *old(ctx),
                before,
                *ctx,
                malloc_calls(st.issued, all.take(i as int)),
                one,
            );
            assert(malloc_calls(st.issued, all.take(i as int)) + one =~= malloc_calls(
                st.issued,
                all.take(i + 1),
            ));
            assert(ctx.state() =~= allocated(st, all.take(i + 1)));
        }
        i = i + 1;
    }
    assert(all.take(i as int) =~= all);
    bufs
}

fn describe_all(ctx: &mut AscendContext, tensors: Vec<AclTensor>) -> (out: Vec<usize>)
    requires
        old(ctx).wf(),
        forall|i: int|
            0 <= i < tensors@.len() ==> old(ctx).state().holds((#[trigger] tensors@[i])@.buffer)
                && covered(tensors@[i]@),
    ensures
        out@ == ids(old(ctx).state().issued, tensors@.len()),
        old(ctx).state().issued + tensors@.len() <= usize::MAX + 1,
        final(ctx).recorded(
            old(ctx),
            describe_calls(old(ctx).state().issued, views(tensors@)),
        ),
        final(ctx).state() == described(old(ctx).state(), views(tensors@)),
{
    let ghost st = ctx.state();
    let ghost given = tensors@;
    let ghost all = views(given);
    let mut tensors = tensors;
    let mut out: Vec<usize> = Vec::new();
    proof {
        reveal(described);
        ctx.lemma_safe();
        lemma_recorded_nothing(*ctx);
        assert(describe_calls(st.issued, all.take(0)) =~= Seq::<Call>::empty());
        assert(described(st, all.take(0)) =~= st);
        assert(given.skip(0) =~= given);
        assert(st.issued <= usize::MAX + 1) by {
            ctx.lemma_issued();
        }
    }
    while tensors.len() > 0
        invariant
            out@.len() <= given.len(),
            tensors@ == given.skip(out@.len() as int),
            all == views(given),
            st == old(ctx).state(),
            st.sane(),
            ctx.wf(),
            forall|j: int|
                0 <= j < given.len() ==> st.holds((#[trigger] given[j])@.buffer) && covered(
                    given[j]@,
                ),
            out@ == ids(st.issued, out@.len()),
            st.issued + out@.len() <= usize::MAX + 1,
            ctx.recorded(old(ctx), describe_calls(st.issued, all.take(out@.len() as int))),
            ctx.state() == described(st, all.take(out@.len() as int)),
        decreases tensors@.len(),
    {
        reveal(described);
        let ghost i = out@.len() as int;
        let ghost before = *ctx;
        let tensor = tensors.remove(0);
        assert(tensor == given[i]);
        assert(st.holds(given[i]@.buffer));
        let id: usize = ctx.describe(tensor);
        out.push(id);
        proof {
            assert(tensors@ =~= given.skip(i + 1));
            assert(out@ =~= ids(st.issued, (i + 1) as nat));
            let one = seq![Call::Describe { id, tensor: given[i]@ }];
            lemma_recorded(*old(ctx), before, *ctx, describe_calls(st.issued, all.take(i)), one);
            assert(describe_calls(st.issued, all.take(i)) + one =~= describe_calls(
                st.issued,
                all.take(i + 1),
            ));
            assert(ctx.state() =~= described(st, all.take(i + 1)));
        }
    }
    assert(all.take(out@.len() as int) =~= all);
    out
}

fn undescribe_all(ctx: &mut AscendContext, first: Ghost<nat>, handles: Vec<usize>)
    requires
        old(ctx).wf(),
        handles@ == ids(first@, handles@.len()),
        first@ + handles@.len() <= usize::MAX + 1,
        forall|i: int|
            0 <= i < handles@.len() ==> old(ctx).state().tensors.contains_key(
                #[trigger] handles@[i],
            ),
    ensures
        final(ctx).recorded(old(ctx), undescribe_calls(first@, handles@.len())),
        final(ctx).state() == undescribed(old(ctx).state(), first@, handles@.len()),
{
    let ghost st = ctx.state();
    let ghost given = handles@;
    let mut left: usize = handles.len();
    let ghost n = given.len();
    let ghost calls = undescribe_calls(first@, n);
    proof {
        reveal(undescribed);
        lemma_recorded_nothing(*ctx);
        assert(calls.take(0) =~= Seq::<Call>::empty());
        assert(undescribed(st, first@ + n, 0) =~= st);
    }
    while left > 0
        invariant
            left <= n,
            n == given.len(),
            given == handles@,
            given == ids(first@, n),
            first@ + n <= usize::MAX + 1,
            calls == undescribe_calls(first@, n),
            st == old(ctx).state(),
            ctx.wf(),
            forall|i: int|
                0 <= i < given.len() ==> st.tensors.contains_key(#[trigger] given[i]),
            ctx.recorded(old(ctx), calls.take(n - left)),
            ctx.state() == undescribed(st, first@ + left as nat, (n - left) as nat),
        decreases left,
    {
        reveal(undescribed);
        let ghost before = *ctx;
        let ghost done = n - left;
        left = left - 1;
        let id: usize = handles[left];
        assert(st.tensors.contains_key(given[left as int]));
        ctx.undescribe(id);
        proof {
            let one = seq![Call::Undescribe { id }];
            lemma_recorded(*old(ctx), before, *ctx, calls.take(done), one);
            assert(calls.take(done) + one =~= calls.take(done + 1));
            assert(ctx.state() =~= undescribed(st, first@ + left as nat, (n - left) as nat));
        }
    }
    assert(calls.take(n as int) =~= calls);
}

/// A kernel that writes whole new allocations replaces their content.
proof fn lemma_outputs_whole(
    st: DeviceState,
    entry: Entry,
    inputs: Seq<TensorValue>,
    handles: Seq<usize>,
    first: nat,
    outputs: Seq<OutputView>,
    n: nat,
)
    requires
        n <= outputs.len(),
        handles.len() == outputs.len(),
        first + outputs.len() <= usize::MAX + 1,
        forall|i: int|
            0 <= i < outputs.len() ==> {
                &&& st.tensors[#[trigger] handles[i]].buffer == whole(
                    (first + i) as nat,
                    outputs[i].len(),
                )
                &&& 0 <= outputs[i].len() <= usize::MAX
                &&& st.fresh.contains_key((first + i) as usize)
                &&& st.fresh[(first + i) as usize].len() == outputs[i].len()
            },
    ensures
        st.with_outputs(entry, inputs, handles, n) == (DeviceState {
            fresh: Map::new(
                |id: usize| st.fresh.contains_key(id),
                |id: usize|
                    if first <= id < first + n {
                        computed(entry, inputs, id - first, outputs[id - first].len() as nat)
                    } else {
                        st.fresh[id]
                    },
            ),
            dirty: st.dirty.union(outputs_written(first, n)),
            ..st
        }),
    decreases n,
{
    let after = st.with_outputs(entry, inputs, handles, n);
    if n == 0 {
        assert(after =~= DeviceState {
            fresh: Map::new(|id: usize| st.fresh.contains_key(id), |id: usize|
                    if first <= id < first + n {
                        computed(entry, inputs, id - first, outputs[id - first].len() as nat)
                    } else {
                        st.fresh[id]
                    }),
            dirty: st.dirty.union(outputs_written(first, n)),
            ..st
        });
    } else {
        let k = (n - 1) as nat;
        lemma_outputs_whole(st, entry, inputs, handles, first, outputs, k);
        let before = st.with_outputs(entry, inputs, handles, k);
        let b = st.tensors[handles[k as int]].buffer;
        assert(b == whole((first + k) as nat, outputs[k as int].len()));
        assert(before.fresh.contains_key((first + k) as usize));
        assert(before.fresh[(first + k) as usize].len() == outputs[k as int].len());
        lemma_write_whole(before, b, computed(entry, inputs, k as int, b.len as nat));
        assert(after.dirty =~= st.dirty.union(outputs_written(first, n)));
        assert(after.fresh =~= Map::new(|id: usize| st.fresh.contains_key(id), |id: usize|
                if first <= id < first + n {
                    computed(entry, inputs, id - first, outputs[id - first].len() as nat)
                } else {
                    st.fresh[id]
                }));
    }
}

/// After the operands of a kernel have been described: launch it and drop the
/// descriptors.
fn launch_and_drop(
    ctx: &mut AscendContext,
    entry: Entry,
    first_in: Ghost<nat>,
    ins: Vec<usize>,
    first_out: Ghost<nat>,
    outs: Vec<usize>,
    plan_op: &'static str,
    run_op: &'static str,
)
    requires
        old(ctx).wf(),
        ins@ == ids(first_in@, ins@.len()),
        outs@ == ids(first_out@, outs@.len()),
        first_in@ + ins@.len() <= first_out@,
        first_out@ + outs@.len() <= usize::MAX + 1,
        forall|i: int|
            0 <= i < ins@.len() ==> old(ctx).state().tensors.contains_key(#[trigger] ins@[i]),
        forall|i: int|
            0 <= i < outs@.len() ==> old(ctx).state().tensors.contains_key(#[trigger] outs@[i]),
    ensures
        ({
            let st = old(ctx).state();
            let launch = Call::Launch {
                entry,
                inputs: ins@,
                outputs: outs@,
                mode: LaunchMode::TwoStage,
                plan_op: plan_op@,
                run_op: run_op@,
            };
            let finish = undescribe_calls(first_out@, outs@.len()) + (if entry is Cat {
                Seq::empty()
            } else {
                undescribe_calls(first_in@, ins@.len())
            });
            let written = st.with_outputs(entry, st.operands(ins@), outs@, outs@.len());
            &&& final(ctx).recorded(old(ctx), seq![launch] + finish)
            &&& final(ctx).state() == (DeviceState {
                tensors: Map::new(
                    |id: usize|
                        st.tensors.contains_key(id) && !(first_in@ <= id < first_in@ + ins@.len())
                            && !(first_out@ <= id < first_out@ + outs@.len()),
                    |id: usize| st.tensors[id],
                ),
                ..written
            })
        }),
{
    reveal(undescribed);
    let ghost st = ctx.state();
    let ghost a = *ctx;
    let ghost n = ins@.len();
    let ghost m = outs@.len();
    let ghost launch = Call::Launch {
        entry,
        inputs: ins@,
        outputs: outs@,
        mode: LaunchMode::TwoStage,
        plan_op: plan_op@,
        run_op: run_op@,
    };
    proof {
        ctx.lemma_safe();
        lemma_outputs_frame(st, entry, st.operands(ins@), outs@, m);
    }
    let mut in_handles: Vec<usize> = Vec::new();
    let mut out_handles: Vec<usize> = Vec::new();
    let mut i: usize = 0;
    while i < ins.len()
        invariant
            i <= ins@.len(),
            in_handles@ == ins@.take(i as int),
        decreases ins@.len() - i,
    {
        in_handles.push(ins[i]);
        i = i + 1;
        assert(in_handles@ =~= ins@.take(i as int));
    }
    let mut j: usize = 0;
    while j < outs.len()
        invariant
            j <= outs@.len(),
            out_handles@ == outs@.take(j as int),
        decreases outs@.len() - j,
    {
        out_handles.push(outs[j]);
        j = j + 1;
        assert(out_handles@ =~= outs@.take(j as int));
    }
    assert(ins@.take(i as int) =~= ins@);
    assert(outs@.take(j as int) =~= outs@);
    ctx.launch(entry, in_handles, out_handles, LaunchMode::TwoStage, plan_op, run_op);
    let ghost b = *ctx;
    let ghost written = st.with_outputs(entry, st.operands(ins@), outs@, m);
    assert(forall|k: int| 0 <= k < outs@.len() ==> b.state().tensors.contains_key(#[trigger] outs@[k]))
        by {
        assert forall|k: int| 0 <= k < outs@.len() implies b.state().tensors.contains_key(
            #[trigger] outs@[k],
        ) by {
            assert(st.tensors.contains_key(outs@[k]));
            if entry is Cat && ins@.to_set().contains(outs@[k]) {
                let p = choose|p: int| 0 <= p < ins@.len() && ins@[p] == outs@[k];
                assert(ins@[p] == first_in@ + p);
                assert(outs@[k] == first_out@ + k);
            }
        }
    }
    undescribe_all(ctx, first_out, outs);
    let ghost c = *ctx;
    let ghost outs_gone = undescribe_calls(first_out@, m);
    proof {
        lemma_recorded(a, b, c, seq![launch], outs_gone);
    }
    let is_cat = match entry {
        Entry::Cat { dim: _ } => true,
        _ => false,
    };
    if is_cat {
        proof {
            assert(outs_gone + Seq::<Call>::empty() =~= outs_gone);
            assert forall|id: usize| #[trigger] ins@.to_set().contains(id) implies first_in@ <= id
                < first_in@ + n by {
                let p = choose|p: int| 0 <= p < ins@.len() && ins@[p] == id;
                assert(ins@[p] == first_in@ + p);
            }
            assert forall|id: usize| first_in@ <= id < first_in@ + n implies
                #[trigger] ins@.to_set().contains(id) by {
                assert(ins@[id - first_in@] == id);
            }
            assert(ctx.state().tensors =~= Map::new(
                |id: usize|
                    st.tensors.contains_key(id) && !(first_in@ <= id < first_in@ + n) && !(
                    first_out@ <= id < first_out@ + m),
                |id: usize| st.tensors[id],
            ));
        }
    } else {
        proof {
            assert forall|k: int| 0 <= k < ins@.len() implies c.state().tensors.contains_key(
                #[trigger] ins@[k],
            ) by {
                assert(st.tensors.contains_key(ins@[k]));
                assert(ins@[k] == first_in@ + k);
            }
        }
        undescribe_all(ctx, first_in, ins);
        proof {
            let ins_gone = undescribe_calls(first_in@, n);
            lemma_recorded(a, c, *ctx, seq![launch] + outs_gone, ins_gone);
            assert(seq![launch] + outs_gone + ins_gone =~= seq![launch] + (outs_gone + ins_gone));
            assert(ctx.state().tensors =~= Map::new(
                |id: usize|
                    st.tensors.contains_key(id) && !(first_in@ <= id < first_in@ + n) && !(
                    first_out@ <= id < first_out@ + m),
                |id: usize| st.tensors[id],
            ));
        }
    }
}

fn output_descriptors(
    first: Ghost<nat>,
    outputs: &Vec<Output>,
    bufs: &Vec<DeviceBuffer>,
) -> (tensors: Vec<AclTensor>)
    requires
        bufs@.len() == outputs@.len(),
        forall|i: int| 0 <= i < outputs@.len() ==> (#[trigger] outputs@[i])@.fits(),
        forall|i: int| 0 <= i < outputs@.len() ==> 0 <= (#[trigger] outputs@[i])@.len() <= usize::MAX,
        forall|i: int|
            0 <= i < bufs@.len() ==> #[trigger] bufs@[i] == whole(
                (first@ + i) as nat,
                outputs@[i]@.len(),
            ),
    ensures
        views(tensors@) == output_tensors(first@, output_views(outputs@)),
        forall|i: int| 0 <= i < tensors@.len() ==> covered((#[trigger] tensors@[i])@),
{
    let ghost all = output_tensors(first@, output_views(outputs@));
    let mut tensors: Vec<AclTensor> = Vec::new();
    let mut i: usize = 0;
    while i < outputs.len()
        invariant
            i <= outputs@.len(),
            bufs@.len() == outputs@.len(),
            all == output_tensors(first@, output_views(outputs@)),
            forall|j: int| 0 <= j < outputs@.len() ==> (#[trigger] outputs@[j])@.fits(),
            forall|j: int|
                0 <= j < outputs@.len() ==> 0 <= (#[trigger] outputs@[j])@.len() <= usize::MAX,
            forall|j: int|
                0 <= j < bufs@.len() ==> #[trigger] bufs@[j] == whole(
                    (first@ + j) as nat,
                    outputs@[j]@.len(),
                ),
            tensors@.len() == i,
            forall|j: int|
                0 <= j < i ==> (#[trigger] tensors@[j])@ == all[j] && covered(tensors@[j]@),
        decreases outputs@.len() - i,
    {
        let output = &outputs[i];
        assert(output@.fits());
        assert(bufs@[i as int] == whole((first@ + i) as nat, output@.len()));
        let tensor = if output.dtype == ACL_FLOAT16 {
            AclTensor::fp16_nd(&bufs[i], &output.dims)
        } else if output.dtype == ACL_FLOAT {
            AclTensor::fp32_nd(&bufs[i], &output.dims)
        } else {
            AclTensor::i32_nd(&bufs[i], &output.dims)
        };
        tensors.push(tensor);
        i = i + 1;
    }
    assert(views(tensors@) =~= all);
    tensors
}

/// The state in which the outputs have been allocated and the inputs described.
spec fn prepared(
    st: DeviceState,
    order: Order,
    ins: Seq<TensorView>,
    outs: Seq<OutputView>,
) -> DeviceState {
    match order {
        Order::OutputsFirst => described(allocated(st, outs), ins),
        Order::InputsFirst => allocated(described(st, ins), outs),
    }
}

spec fn first_input(issued: nat, order: Order, outputs: nat) -> nat {
    match order {
        Order::OutputsFirst => issued + outputs,
        Order::InputsFirst => issued,
    }
}

proof fn lemma_parts(st: DeviceState, ins: Seq<TensorView>, outs: Seq<OutputView>)
    requires
        st.sane(),
    ensures
        allocated(st, outs).issued == st.issued + outs.len(),
        described(st, ins).issued == st.issued + ins.len(),
        forall|b: DeviceBuffer| #[trigger] st.holds(b) ==> allocated(st, outs).holds(b),
{
    reveal(allocated);
    reveal(described);
}

proof fn lemma_prepared(
    st: DeviceState,
    order: Order,
    ins: Seq<TensorView>,
    outs: Seq<OutputView>,
)
    requires
        st.sane(),
        st.issued + ins.len() + outs.len() <= usize::MAX + 1,
        forall|i: int| 0 <= i < outs.len() ==> 0 <= (#[trigger] outs[i]).len() <= usize::MAX,
    ensures
        ({
            let first = first_output(st.issued, order, ins.len());
            let first_in = first_input(st.issued, order, outs.len());
            let after = prepared(st, order, ins, outs);
            &&& after.kept == st.kept
            &&& after.pool == st.pool
            &&& after.slots == st.slots
            &&& after.dirty == st.dirty
            &&& after.staged == st.staged
            &&& after.issued == st.issued + ins.len() + outs.len()
            &&& after.fresh == Map::new(
                |id: usize| st.fresh.contains_key(id) || first <= id < first + outs.len(),
                |id: usize|
                    if st.fresh.contains_key(id) {
                        st.fresh[id]
                    } else {
                        undefined(Base::Fresh(id), outs[id - first].len() as nat)
                    },
            )
            &&& after.tensors == Map::new(
                |id: usize| st.tensors.contains_key(id) || first_in <= id < first_in + ins.len(),
                |id: usize|
                    if st.tensors.contains_key(id) {
                        st.tensors[id]
                    } else {
                        ins[id - first_in]
                    },
            )
            &&& forall|i: int|
                0 <= i < outs.len() ==> after.holds(
                    #[trigger] whole((first + i) as nat, outs[i].len()),
                )
            &&& forall|b: DeviceBuffer| #[trigger]
                st.holds(b) ==> after.holds(b) && after.value(b) == st.value(b)
        }),
{
    reveal(allocated);
    reveal(described);
    let first = first_output(st.issued, order, ins.len());
    let first_in = first_input(st.issued, order, outs.len());
    let after = prepared(st, order, ins, outs);
    assert(after.fresh =~= Map::new(
        |id: usize| st.fresh.contains_key(id) || first <= id < first + outs.len(),
        |id: usize|
            if st.fresh.contains_key(id) {
                st.fresh[id]
            } else {
                undefined(Base::Fresh(id), outs[id - first].len() as nat)
            },
    ));
    assert(after.tensors =~= Map::new(
        |id: usize| st.tensors.contains_key(id) || first_in <= id < first_in + ins.len(),
        |id: usize|
            if st.tensors.contains_key(id) {
                st.tensors[id]
            } else {
                ins[id - first_in]
            },
    ));
    assert forall|i: int| 0 <= i < outs.len() implies after.holds(
        #[trigger] whole((first + i) as nat, outs[i].len()),
    ) by {
        assert(!st.fresh.contains_key((first + i) as usize));
    }
}

/// With every operand described, the handles lead to the operands.
proof fn lemma_ready(
    st: DeviceState,
    order: Order,
    ins: Seq<TensorView>,
    outs: Seq<OutputView>,
    in_handles: Seq<usize>,
    out_handles: Seq<usize>,
)
    requires
        st.sane(),
        st.issued + ins.len() + 2 * outs.len() <= usize::MAX + 1,
        forall|i: int| 0 <= i < outs.len() ==> 0 <= (#[trigger] outs[i]).len() <= usize::MAX,
        forall|i: int| 0 <= i < ins.len() ==> st.holds((#[trigger] ins[i]).buffer),
        in_handles == ids(first_input(st.issued, order, outs.len()), ins.len()),
        out_handles == ids((st.issued + ins.len() + outs.len()) as nat, outs.len()),
    ensures
        ({
            let first = first_output(st.issued, order, ins.len());
            let ready = described(prepared(st, order, ins, outs), output_tensors(first, outs));
            &&& forall|i: int|
                0 <= i < ins.len() ==> ready.tensors.contains_key(#[trigger] in_handles[i])
            &&& forall|i: int|
                0 <= i < outs.len() ==> ready.tensors.contains_key(#[trigger] out_handles[i])
            &&& ready.operands(in_handles) == values(st, ins)
            &&& forall|i: int|
                0 <= i < outs.len() ==> {
                    &&& ready.tensors[#[trigger] out_handles[i]].buffer == whole(
                        (first + i) as nat,
                        outs[i].len(),
                    )
                    &&& 0 <= outs[i].len() <= usize::MAX
                    &&& ready.fresh.contains_key((first + i) as usize)
                    &&& ready.fresh[(first + i) as usize].len() == outs[i].len()
                }
        }),
{
    let first = first_output(st.issued, order, ins.len());
    let first_in = first_input(st.issued, order, outs.len());
    reveal(described);
    let base = prepared(st, order, ins, outs);
    let ready = described(base, output_tensors(first, outs));
    lemma_prepared(st, order, ins, outs);
    assert forall|i: int| 0 <= i < ins.len() implies ready.tensors.contains_key(
        #[trigger] in_handles[i],
    ) && ready.operands(in_handles)[i] == values(st, ins)[i] by {
        let id = in_handles[i];
        assert(id == first_in + i);
        assert(!st.tensors.contains_key(id));
        assert(ready.tensors[id] == ins[i]);
        assert(st.holds(ins[i].buffer));
    }
    assert(ready.operands(in_handles) =~= values(st, ins));
    assert forall|i: int| 0 <= i < outs.len() implies ready.tensors.contains_key(
        #[trigger] out_handles[i],
    ) && ready.tensors[out_handles[i]].buffer == whole((first + i) as nat, outs[i].len()) by {
        let id = out_handles[i];
        assert(id == st.issued + ins.len() + outs.len() + i);
        assert(!base.tensors.contains_key(id));
    }
    assert forall|i: int| 0 <= i < outs.len() implies ready.fresh.contains_key(
        (first + i) as usize,
    ) && ready.fresh[(first + i) as usize].len() == outs[i].len() by {
        assert(!st.fresh.contains_key((first + i) as usize));
    }
}

/// Dropping the descriptors after the launch leaves exactly the kernel's effect.
proof fn lemma_effect(
    st: DeviceState,
    entry: Entry,
    order: Order,
    ins: Seq<TensorView>,
    outs: Seq<OutputView>,
    in_handles: Seq<usize>,
    out_handles: Seq<usize>,
    end: DeviceState,
)
    requires
        st.sane(),
        st.issued + ins.len() + 2 * outs.len() <= usize::MAX + 1,
        forall|i: int| 0 <= i < outs.len() ==> 0 <= (#[trigger] outs[i]).len() <= usize::MAX,
        forall|i: int| 0 <= i < ins.len() ==> st.holds((#[trigger] ins[i]).buffer),
        in_handles == ids(first_input(st.issued, order, outs.len()), ins.len()),
        out_handles == ids((st.issued + ins.len() + outs.len()) as nat, outs.len()),
        ({
            let first = first_output(st.issued, order, ins.len());
            let first_in = first_input(st.issued, order, outs.len());
            let first_out: nat = (st.issued + ins.len() + outs.len()) as nat;
            let ready = described(prepared(st, order, ins, outs), output_tensors(first, outs));
            let written = ready.with_outputs(
                entry,
                ready.operands(in_handles),
                out_handles,
                outs.len(),
            );
            end == (DeviceState {
                tensors: Map::new(
                    |id: usize|
                        ready.tensors.contains_key(id) && !(first_in <= id < first_in + ins.len())
                            && !(first_out <= id < first_out + outs.len()),
                    |id: usize| ready.tensors[id],
                ),
                ..written
            })
        }),
    ensures
        end == kernel_effect(
            st,
            first_output(st.issued, order, ins.len()),
            entry,
            values(st, ins),
            outs,
        ),
{
    let first = first_output(st.issued, order, ins.len());
    reveal(described);
    let base = prepared(st, order, ins, outs);
    let ready = described(base, output_tensors(first, outs));
    lemma_prepared(st, order, ins, outs);
    lemma_ready(st, order, ins, outs, in_handles, out_handles);
    lemma_outputs_whole(
        ready,
        entry,
        values(st, ins),
        out_handles,
        first,
        outs,
        outs.len(),
    );
    let goal = kernel_effect(st, first, entry, values(st, ins), outs);
    assert(end.fresh =~= goal.fresh) by {
        assert forall|id: usize| #[trigger] st.fresh.contains_key(id) implies id < st.issued by {}
    }
    assert(end.tensors =~= goal.tensors) by {
        assert forall|id: usize| #[trigger] st.tensors.contains_key(id) implies id < st.issued by {}
    }
}

/// Run one kernel in two stages. The outputs are new allocations, in order.
pub fn kernel(
    ctx: &mut AscendContext,
    entry: Entry,
    order: Order,
    inputs: Vec<AclTensor>,
    outputs: Vec<Output>,
    plan_op: &'static str,
    run_op: &'static str,
) -> (bufs: Vec<DeviceBuffer>)
    requires
        old(ctx).wf(),
        forall|i: int|
            0 <= i < inputs@.len() ==> old(ctx).state().holds((#[trigger] inputs@[i])@.buffer)
                && covered(inputs@[i]@),
        forall|i: int| 0 <= i < outputs@.len() ==> (#[trigger] outputs@[i])@.fits(),
    ensures
        ({
            let st = old(ctx).state();
            let first = first_output(st.issued, order, inputs@.len());
            &&& first + outputs@.len() <= usize::MAX + 1
            &&& bufs@.len() == outputs@.len()
            &&& forall|i: int|
                0 <= i < bufs@.len() ==> #[trigger] bufs@[i] == whole(
                    (first + i) as nat,
                    outputs@[i]@.len(),
                ) && 0 <= outputs@[i]@.len() <= usize::MAX
            &&& final(ctx).recorded(
                old(ctx),
                kernel_calls(
                    st.issued,
                    entry,
                    order,
                    views(inputs@),
                    output_views(outputs@),
                    plan_op@,
                    run_op@,
                ),
            )
            &&& final(ctx).state() == kernel_effect(
                st,
                first,
                entry,
                values(st, views(inputs@)),
                output_views(outputs@),
            )
        }),
{
    let ghost a = *ctx;
    let ghost st = ctx.state();
    let ghost n = inputs@.len();
    let ghost m = outputs@.len();
    let ghost ins = views(inputs@);
    let ghost outs = output_views(outputs@);
    let ghost first = first_output(st.issued, order, n);
    let ghost first_in = first_input(st.issued, order, m);
    let ghost mallocs = malloc_calls(first, outs);
    let ghost in_descs = describe_calls(first_in, ins);
    let ghost prepare = match order {
        Order::OutputsFirst => mallocs + in_descs,
        Order::InputsFirst => in_descs + mallocs,
    };
    proof {
        ctx.lemma_safe();
        lemma_parts(st, ins, outs);
        assert forall|i: int| 0 <= i < ins.len() implies st.holds((#[trigger] ins[i]).buffer) by {
            assert(st.holds(inputs@[i]@.buffer));
        }
    }
    let in_handles: Vec<usize>;
    let bufs: Vec<DeviceBuffer>;
    match order {
        Order::OutputsFirst => {
            bufs = malloc_all(ctx, &outputs);
            let ghost b = *ctx;
            proof {
                assert forall|i: int| 0 <= i < inputs@.len() implies ctx.state().holds(
                    (#[trigger] inputs@[i])@.buffer,
                ) && covered(inputs@[i]@) by {
                    assert(st.holds(inputs@[i]@.buffer));
                }
            }
            in_handles = describe_all(ctx, inputs);
            proof {
                lemma_recorded(a, b, *ctx, mallocs, in_descs);
            }
        },
        Order::InputsFirst => {
            in_handles = describe_all(ctx, inputs);
            let ghost b = *ctx;
            bufs = malloc_all(ctx, &outputs);
            proof {
                lemma_recorded(a, b, *ctx, in_descs, mallocs);
            }
        },
    }
    let ghost c = *ctx;
    let out_tensors = output_descriptors(Ghost(first), &outputs, &bufs);
    proof {
        assert(forall|i: int| 0 <= i < outs.len() ==> 0 <= (#[trigger] outs[i]).len() <= usize::MAX)
            by {
            assert forall|i: int| 0 <= i < outs.len() implies 0 <= (#[trigger] outs[i]).len()
                <= usize::MAX by {
                assert(outs[i] == outputs@[i]@);
            }
        }
        lemma_prepared(st, order, ins, outs);
        assert(views(out_tensors@).len() == m);
        assert forall|i: int| 0 <= i < out_tensors@.len() implies ctx.state().holds(
            (#[trigger] out_tensors@[i])@.buffer,
        ) && covered(out_tensors@[i]@) by {
            assert(out_tensors@[i]@ == views(out_tensors@)[i]);
            assert(ctx.state().holds(whole((first + i) as nat, outs[i].len())));
        }
    }
    let out_handles = describe_all(ctx, out_tensors);
    let ghost d = *ctx;
    proof {
        c.lemma_safe();
        lemma_parts(c.state(), output_tensors(first, outs), outs);
    }
    let ghost out_descs = describe_calls((st.issued + n + m) as nat, output_tensors(first, outs));
    proof {
        lemma_ready(st, order, ins, outs, in_handles@, out_handles@);
    }
    launch_and_drop(
        ctx,
        entry,
        Ghost(first_in),
        in_handles,
        Ghost((st.issued + n + m) as nat),
        out_handles,
        plan_op,
        run_op,
    );
    proof {
        lemma_effect(st, entry, order, ins, outs, in_handles@, out_handles@, ctx.state());
        let launch = Call::Launch {
            entry,
            inputs: in_handles@,
            outputs: out_handles@,
            mode: LaunchMode::TwoStage,
            plan_op: plan_op@,
            run_op: run_op@,
        };
        let finish = undescribe_calls((st.issued + n + m) as nat, m) + (if entry is Cat {
            Seq::empty()
        } else {
            undescribe_calls(first_in, n)
        });
        lemma_recorded_parts(a, c, d, *ctx, prepare, out_descs, seq![launch], finish);
        reveal(kernel_calls);
    }
    bufs
}

} // verus!
