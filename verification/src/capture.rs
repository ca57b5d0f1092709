//! Which programs can run inside a capture window.

use vstd::prelude::*;

use crate::context::AscendContext;
use crate::device::{Call, Entry, TensorView};
use crate::kernel::{kernel_calls, Order, OutputView};

verus! {

/// The step is queued on the stream, or bookkeeping; the host neither waits nor
/// moves data.
pub open spec fn stream_ordered(call: Call) -> bool {
    match call {
        Call::Malloc { .. } => true,
        Call::Scratch { .. } => true,
        Call::Release { .. } => true,
        Call::Fill { .. } => true,
        Call::Copy { .. } => true,
        Call::Describe { .. } => true,
        Call::Undescribe { .. } => true,
        Call::Launch { .. } => true,
        _ => false,
    }
}

/// Every step is.
pub open spec fn all_stream_ordered(calls: Seq<Call>) -> bool {
    forall|i: int| 0 <= i < calls.len() ==> stream_ordered(#[trigger] calls[i])
}

/// What was recorded from `before` to `after` can run inside a capture window.
pub open spec fn quiet(before: AscendContext, after: AscendContext) -> bool {
    let a = before.calls();
    let b = after.calls();
    &&& a.len() <= b.len()
    &&& forall|i: int| 0 <= i < a.len() ==> #[trigger] b[i] == a[i]
    &&& forall|i: int| a.len() <= i < b.len() ==> stream_ordered(#[trigger] b[i])
}

pub proof fn lemma_quiet(before: AscendContext, after: AscendContext, more: Seq<Call>)
    requires
        after.recorded(&before, more),
        all_stream_ordered(more),
    ensures
        quiet(before, after),
{
    let a = before.calls();
    let b = after.calls();
    assert forall|i: int| a.len() <= i < b.len() implies stream_ordered(#[trigger] b[i]) by {
        assert(b[i] == more[i - a.len()]);
    }
}

pub proof fn lemma_quiet_same(a: AscendContext)
    ensures
        quiet(a, a),
{
}

pub proof fn lemma_quiet_then(a: AscendContext, b: AscendContext, c: AscendContext)
    requires
        quiet(a, b),
        quiet(b, c),
    ensures
        quiet(a, c),
{
    let x = a.calls();
    let y = b.calls();
    let z = c.calls();
    assert forall|i: int| 0 <= i < x.len() implies #[trigger] z[i] == x[i] by {
        assert(y[i] == x[i]);
    }
    assert forall|i: int| x.len() <= i < z.len() implies stream_ordered(#[trigger] z[i]) by {
        if i < y.len() {
            assert(z[i] == y[i]);
        }
    }
}

/// Running a kernel is stream-ordered throughout.
pub proof fn lemma_kernel_quiet(
    issued: nat,
    entry: Entry,
    order: Order,
    inputs: Seq<TensorView>,
    outputs: Seq<OutputView>,
    plan_op: Seq<char>,
    run_op: Seq<char>,
)
    ensures
        all_stream_ordered(kernel_calls(issued, entry, order, inputs, outputs, plan_op, run_op)),
{
    reveal(kernel_calls);
}

} // verus!
