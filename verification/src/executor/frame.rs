//! Bookkeeping of buffers across the steps of a layer.

use vstd::prelude::*;

use crate::cache::{lemma_stable_then, stable};
use crate::capture::{lemma_quiet, lemma_quiet_same, lemma_quiet_then, quiet};
use crate::context::AscendContext;
use crate::device::{Base, Call, DeviceBuffer};
use crate::semantics::{
    delivers, is_lasting, issued_before, keeps, lemma_releasable, lemma_whole_value, DeviceState,
    SymByte,
};

verus! {

/// A buffer of its own, all of the allocation with identifier `id`, that holds
/// `bytes`.
pub open spec fn is_whole(buf: DeviceBuffer, id: usize, bytes: Seq<SymByte>) -> bool {
    buf == (DeviceBuffer { base: Base::Fresh(id), offset: 0, len: bytes.len() as usize })
        && bytes.len() <= usize::MAX
}

/// As [`delivers`], for three buffers.
pub open spec fn delivers_three(
    before: DeviceState,
    after: DeviceState,
    a: DeviceBuffer,
    av: Seq<SymByte>,
    b: DeviceBuffer,
    bv: Seq<SymByte>,
    c: DeviceBuffer,
    cv: Seq<SymByte>,
) -> bool {
    &&& keeps(before, after)
    &&& match (a.base, b.base, c.base) {
        (Base::Fresh(i), Base::Fresh(j), Base::Fresh(k)) => {
            &&& is_whole(a, i, av)
            &&& is_whole(b, j, bv)
            &&& is_whole(c, k, cv)
            &&& before.issued <= i < j < k < after.issued
            &&& after.fresh == before.fresh.insert(i, av).insert(j, bv).insert(k, cv)
        },
        _ => false,
    }
}

/// What [`delivers_three`] means for single buffers.
pub proof fn lemma_delivers_three(
    before: DeviceState,
    after: DeviceState,
    a: DeviceBuffer,
    av: Seq<SymByte>,
    b: DeviceBuffer,
    bv: Seq<SymByte>,
    c: DeviceBuffer,
    cv: Seq<SymByte>,
)
    requires
        before.sane(),
        delivers_three(before, after, a, av, b, bv, c, cv),
    ensures
        stable(before, after),
        after.holds(a),
        after.holds(b),
        after.holds(c),
        after.value(a) == av,
        after.value(b) == bv,
        after.value(c) == cv,
        forall|x: DeviceBuffer| before.holds(x) && is_lasting(x) ==> #[trigger] after.holds(x),
        forall|x: DeviceBuffer|
            before.holds(x) && is_lasting(x) ==> #[trigger] after.value(x) == before.value(x),
{
    lemma_whole_value(after, a);
    lemma_whole_value(after, b);
    lemma_whole_value(after, c);
    assert forall|x: DeviceBuffer| before.holds(x) && is_lasting(x) implies after.holds(x)
        && after.value(x) == before.value(x) by {
        match x.base {
            Base::Kept(id) => {
                assert(before.kept.contains_key(id));
            },
            _ => {},
        }
    }
}

/// `after` is `before` without the allocation of `buf`.
pub open spec fn dropped(before: DeviceState, after: DeviceState, buf: DeviceBuffer) -> bool {
    buf.base matches Base::Fresh(id) && after == (DeviceState {
        fresh: before.fresh.remove(id),
        ..before
    })
}

/// Release a temporary that was made after `start`.
pub(crate) fn drop_temp(ctx: &mut AscendContext, buf: DeviceBuffer, start: Ghost<DeviceState>)
    requires
        old(ctx).wf(),
        start@.sane(),
        old(ctx).state().tensors == start@.tensors,
        buf.base matches Base::Fresh(id) && start@.issued <= id && old(
            ctx,
        ).state().fresh.contains_key(id),
    ensures
        final(ctx).continues(old(ctx)),
        quiet(*old(ctx), *final(ctx)),
        dropped(old(ctx).state(), final(ctx).state(), buf),
{
    let ghost before = *ctx;
    proof {
        match buf.base {
            Base::Fresh(id) => {
                lemma_releasable(start@, ctx.state(), id);
            },
            _ => {},
        }
    }
    ctx.release(buf);
    proof {
        lemma_quiet(before, *ctx, seq![Call::Release { base: buf.base }]);
    }
}

/// What the stream had finished writing stays finished.
pub proof fn lemma_settled(before: DeviceState, after: DeviceState)
    requires
        before.sane(),
        keeps(before, after),
    ensures
        forall|b: DeviceBuffer|
            before.holds(b) && before.settled(b) && !(b.base is Pool) ==> #[trigger] after.settled(
                b,
            ),
{
    assert forall|b: DeviceBuffer|
        before.holds(b) && before.settled(b) && !(b.base is Pool) implies #[trigger] after.settled(
        b,
    ) by {
        assert(issued_before(b.base, before.issued));
    }
}

/// A buffer and what it holds.
pub type Item = (DeviceBuffer, Seq<SymByte>);

/// The identifier of the allocation behind an item.
pub open spec fn item_id(item: Item) -> usize {
    item.0.base->Fresh_0
}

/// The item is a whole allocation handed out between `from` and `to`, which the
/// memory `fresh` holds.
pub open spec fn is_item(
    item: Item,
    fresh: Map<usize, Seq<SymByte>>,
    from: nat,
    to: nat,
) -> bool {
    &&& item.0.base is Fresh
    &&& is_whole(item.0, item_id(item), item.1)
    &&& from <= item_id(item) < to
    &&& fresh.contains_key(item_id(item))
    &&& fresh[item_id(item)] == item.1
}

/// As [`delivers`], for any number of buffers: what was allocated is as it was, and
/// the items are all that was added and not released.
pub open spec fn owns(before: DeviceState, after: DeviceState, items: Seq<Item>) -> bool {
    &&& keeps(before, after)
    &&& forall|i: int|
        0 <= i < items.len() ==> is_item(
            #[trigger] items[i],
            after.fresh,
            before.issued,
            after.issued,
        )
    &&& forall|i: int, j: int|
        0 <= i < j < items.len() ==> item_id(#[trigger] items[i]) != item_id(#[trigger] items[j])
    &&& forall|id: usize| #[trigger]
        before.fresh.contains_key(id) ==> after.fresh.contains_key(id) && after.fresh[id]
            == before.fresh[id]
    &&& forall|id: usize| #[trigger]
        after.fresh.contains_key(id) ==> before.fresh.contains_key(id) || exists|i: int|
            0 <= i < items.len() && item_id(#[trigger] items[i]) == id
}

/// Nothing added.
pub proof fn lemma_owns_nothing(st: DeviceState)
    ensures
        owns(st, st, Seq::<Item>::empty()),
{
}

/// What [`owns`] means for single buffers.
pub proof fn lemma_owns(before: DeviceState, after: DeviceState, items: Seq<Item>)
    requires
        before.sane(),
        owns(before, after, items),
    ensures
        stable(before, after),
        forall|i: int|
            0 <= i < items.len() ==> after.holds_whole((#[trigger] items[i]).0) && after.holds(
                items[i].0,
            ) && after.value(items[i].0) == items[i].1 && is_lasting(items[i].0),
        forall|x: DeviceBuffer| before.holds(x) && is_lasting(x) ==> #[trigger] after.holds(x),
        forall|x: DeviceBuffer|
            before.holds(x) && is_lasting(x) ==> #[trigger] after.value(x) == before.value(x),
{
    assert forall|i: int| 0 <= i < items.len() implies after.holds_whole((#[trigger] items[i]).0)
        && after.value(items[i].0) == items[i].1 by {
        lemma_whole_value(after, items[i].0);
    }
    assert forall|x: DeviceBuffer| before.holds(x) && is_lasting(x) implies after.holds(x)
        && after.value(x) == before.value(x) by {
        match x.base {
            Base::Kept(id) => {
                assert(before.kept.contains_key(id));
            },
            Base::Fresh(id) => {
                assert(before.fresh.contains_key(id));
            },
            _ => {},
        }
    }
}

/// One buffer.
pub proof fn lemma_owns_one(
    before: DeviceState,
    after: DeviceState,
    buf: DeviceBuffer,
    bytes: Seq<SymByte>,
)
    requires
        before.sane(),
    ensures
        delivers(before, after, buf, bytes) ==> owns(before, after, seq![(buf, bytes)]),
        owns(before, after, seq![(buf, bytes)]) ==> delivers(before, after, buf, bytes),
{
    let items = seq![(buf, bytes)];
    if delivers(before, after, buf, bytes) {
        assert(bytes.len() <= usize::MAX);
        let id = item_id(items[0]);
        assert(!before.fresh.contains_key(id));
        assert forall|x: usize| #[trigger] after.fresh.contains_key(x) implies
            before.fresh.contains_key(x) || exists|i: int|
            0 <= i < items.len() && item_id(#[trigger] items[i]) == x by {
            if !before.fresh.contains_key(x) {
                assert(item_id(items[0]) == x);
            }
        }
    }
    if owns(before, after, items) {
        assert(is_item(items[0], after.fresh, before.issued, after.issued));
        assert(after.fresh =~= before.fresh.insert(item_id(items[0]), bytes));
    }
}

/// Three buffers.
pub proof fn lemma_owns_three(
    before: DeviceState,
    after: DeviceState,
    a: DeviceBuffer,
    av: Seq<SymByte>,
    b: DeviceBuffer,
    bv: Seq<SymByte>,
    c: DeviceBuffer,
    cv: Seq<SymByte>,
)
    requires
        before.sane(),
        delivers_three(before, after, a, av, b, bv, c, cv),
    ensures
        owns(before, after, seq![(a, av), (b, bv), (c, cv)]),
{
    let items = seq![(a, av), (b, bv), (c, cv)];
    assert forall|x: usize| #[trigger] after.fresh.contains_key(x) implies
        before.fresh.contains_key(x) || exists|i: int|
        0 <= i < items.len() && item_id(#[trigger] items[i]) == x by {
        if !before.fresh.contains_key(x) {
            assert(item_id(items[0]) == x || item_id(items[1]) == x || item_id(items[2]) == x);
        }
    }
}

/// One part of a program after another.
pub proof fn lemma_owns_then(
    a: DeviceState,
    b: DeviceState,
    c: DeviceState,
    first: Seq<Item>,
    second: Seq<Item>,
)
    requires
        owns(a, b, first),
        owns(b, c, second),
    ensures
        owns(a, c, first + second),
{
    let items = first + second;
    assert forall|id: usize| #[trigger] c.fresh.contains_key(id) implies a.fresh.contains_key(id)
        || exists|i: int| 0 <= i < items.len() && item_id(#[trigger] items[i]) == id by {
        if b.fresh.contains_key(id) {
            if !a.fresh.contains_key(id) {
                let i = choose|i: int| 0 <= i < first.len() && item_id(#[trigger] first[i]) == id;
                assert(items[i] == first[i]);
            }
        } else {
            let i = choose|i: int| 0 <= i < second.len() && item_id(#[trigger] second[i]) == id;
            assert(items[first.len() + i] == second[i]);
        }
    }
    assert forall|i: int| 0 <= i < items.len() implies is_item(
        #[trigger] items[i],
        c.fresh,
        a.issued,
        c.issued,
    ) by {
        if i < first.len() {
            assert(is_item(first[i], b.fresh, a.issued, b.issued));
            assert(b.fresh.contains_key(item_id(first[i])));
        } else {
            assert(is_item(second[i - first.len()], c.fresh, b.issued, c.issued));
        }
    }
    assert forall|i: int, j: int| 0 <= i < j < items.len() implies item_id(#[trigger] items[i])
        != item_id(#[trigger] items[j]) by {
        if i < first.len() {
            assert(is_item(first[i], b.fresh, a.issued, b.issued));
        }
        if j >= first.len() {
            assert(is_item(second[j - first.len()], c.fresh, b.issued, c.issued));
        }
        if i >= first.len() {
            assert(item_id(second[i - first.len()]) != item_id(second[j - first.len()]));
        } else if j < first.len() {
            assert(item_id(first[i]) != item_id(first[j]));
        }
    }
    assert forall|id: usize| #[trigger] a.fresh.contains_key(id) implies c.fresh.contains_key(id)
        && c.fresh[id] == a.fresh[id] by {
        assert(b.fresh.contains_key(id));
    }
    assert forall|id: usize| #[trigger] a.kept.contains_key(id) implies c.kept.contains_key(id)
        && c.kept[id] == a.kept[id] by {
        assert(b.kept.contains_key(id));
    }
}

/// Releasing an item.
pub proof fn lemma_owns_drop(
    before: DeviceState,
    now: DeviceState,
    after: DeviceState,
    items: Seq<Item>,
    k: int,
)
    requires
        before.sane(),
        owns(before, now, items),
        0 <= k < items.len(),
        dropped(now, after, items[k].0),
    ensures
        owns(before, after, items.remove(k)),
{
    let rest = items.remove(k);
    assert(is_item(items[k], now.fresh, before.issued, now.issued));
    assert forall|i: int| 0 <= i < rest.len() implies is_item(
        #[trigger] rest[i],
        after.fresh,
        before.issued,
        after.issued,
    ) by {
        let j = if i < k { i } else { i + 1 };
        assert(rest[i] == items[j]);
        assert(is_item(items[j], now.fresh, before.issued, now.issued));
        if j < k {
            assert(item_id(items[j]) != item_id(items[k]));
        } else {
            assert(item_id(items[k]) != item_id(items[j]));
        }
    }
    assert forall|i: int, j: int| 0 <= i < j < rest.len() implies item_id(#[trigger] rest[i])
        != item_id(#[trigger] rest[j]) by {
        let x = if i < k { i } else { i + 1 };
        let y = if j < k { j } else { j + 1 };
        assert(item_id(items[x]) != item_id(items[y]));
    }
    assert forall|id: usize| #[trigger] after.fresh.contains_key(id) implies
        before.fresh.contains_key(id) || exists|i: int|
        0 <= i < rest.len() && item_id(#[trigger] rest[i]) == id by {
        if !before.fresh.contains_key(id) {
            let j = choose|j: int| 0 <= j < items.len() && item_id(#[trigger] items[j]) == id;
            let i = if j < k { j } else { j - 1 };
            assert(rest[i] == items[j]);
        }
    }
}

/// Releasing something that was allocated before, or an item, changes nothing else.
pub proof fn lemma_dropped_stable(before: DeviceState, after: DeviceState, buf: DeviceBuffer)
    requires
        dropped(before, after, buf),
    ensures
        stable(before, after),
{
}

/// One part of a program after another keeps what each part keeps.
pub proof fn lemma_keeps_then(a: DeviceState, b: DeviceState, c: DeviceState)
    requires
        keeps(a, b),
        keeps(b, c),
    ensures
        keeps(a, c),
{
    assert forall|id: usize| #[trigger] a.kept.contains_key(id) implies c.kept.contains_key(id)
        && c.kept[id] == a.kept[id] by {
        assert(b.kept.contains_key(id));
    }
}

/// The order of two groups of items does not matter.
pub proof fn lemma_owns_swap(
    before: DeviceState,
    after: DeviceState,
    xs: Seq<Item>,
    ys: Seq<Item>,
)
    requires
        owns(before, after, xs + ys),
    ensures
        owns(before, after, ys + xs),
{
    let a = xs + ys;
    let b = ys + xs;
    assert forall|i: int| 0 <= i < b.len() implies is_item(
        #[trigger] b[i],
        after.fresh,
        before.issued,
        after.issued,
    ) by {
        let j = if i < ys.len() { i + xs.len() } else { i - ys.len() };
        assert(b[i] == a[j]);
    }
    assert forall|i: int, j: int| 0 <= i < j < b.len() implies item_id(#[trigger] b[i]) != item_id(
        #[trigger] b[j],
    ) by {
        let x = if i < ys.len() { i + xs.len() } else { i - ys.len() };
        let y = if j < ys.len() { j + xs.len() } else { j - ys.len() };
        assert(b[i] == a[x] && b[j] == a[y]);
        if x < y {
            assert(item_id(a[x]) != item_id(a[y]));
        } else {
            assert(item_id(a[y]) != item_id(a[x]));
        }
    }
    assert forall|id: usize| #[trigger] after.fresh.contains_key(id) implies
        before.fresh.contains_key(id) || exists|i: int|
        0 <= i < b.len() && item_id(#[trigger] b[i]) == id by {
        if !before.fresh.contains_key(id) {
            let j = choose|j: int| 0 <= j < a.len() && item_id(#[trigger] a[j]) == id;
            let i = if j < xs.len() { j + ys.len() } else { j - xs.len() };
            assert(b[i] == a[j]);
        }
    }
}

/// `after` is `before` but for allocations that their creators release.
pub open spec fn only_fresh(before: DeviceState, after: DeviceState) -> bool {
    after == (DeviceState { fresh: after.fresh, ..before })
}

/// Release the last items.
pub(crate) fn drop_all(
    ctx: &mut AscendContext,
    bufs: &Vec<DeviceBuffer>,
    start: Ghost<DeviceState>,
    base: Ghost<Seq<Item>>,
    tail: Ghost<Seq<Item>>,
)
    requires
        old(ctx).wf(),
        start@.sane(),
        old(ctx).state().tensors == start@.tensors,
        tail@.len() == bufs@.len(),
        forall|i: int| 0 <= i < tail@.len() ==> (#[trigger] tail@[i]).0 == bufs@[i],
        owns(start@, old(ctx).state(), base@ + tail@),
    ensures
        final(ctx).continues(old(ctx)),
        quiet(*old(ctx), *final(ctx)),
        only_fresh(old(ctx).state(), final(ctx).state()),
        stable(old(ctx).state(), final(ctx).state()),
        owns(start@, final(ctx).state(), base@),
{
    let ghost c0 = *ctx;
    let ghost s0 = ctx.state();
    let mut n: usize = bufs.len();
    proof {
        lemma_quiet_same(c0);
        assert(tail@.take(n as int) =~= tail@);
    }
    while n > 0
        invariant
            n <= bufs@.len(),
            ctx.wf(),
            ctx.continues(&c0),
            quiet(c0, *ctx),
            s0 == c0.state(),
            start@.sane(),
            s0.tensors == start@.tensors,
            only_fresh(s0, ctx.state()),
            stable(s0, ctx.state()),
            tail@.len() == bufs@.len(),
            forall|i: int| 0 <= i < tail@.len() ==> (#[trigger] tail@[i]).0 == bufs@[i],
            owns(start@, ctx.state(), base@ + tail@.take(n as int)),
        decreases n,
    {
        let ghost items = base@ + tail@.take(n as int);
        let ghost k = base@.len() + n - 1;
        let ghost s1 = ctx.state();
        let ghost c1 = *ctx;
        proof {
            assert(items[k] == tail@[n - 1]);
            assert(is_item(items[k], s1.fresh, start@.issued, s1.issued));
        }
        drop_temp(ctx, bufs[n - 1], start);
        proof {
            lemma_owns_drop(start@, s1, ctx.state(), items, k);
            assert(items.remove(k) =~= base@ + tail@.take(n - 1));
            lemma_dropped_stable(s1, ctx.state(), bufs@[n - 1]);
            lemma_stable_then(s0, s1, ctx.state());
            lemma_quiet_then(c0, c1, *ctx);
        }
        n = n - 1;
    }
    proof {
        assert(base@ + tail@.take(0) =~= base@);
    }
}

} // verus!
