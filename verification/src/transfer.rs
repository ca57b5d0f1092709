//! Host data on its way to the device.

use vstd::prelude::*;

use crate::context::AscendContext;
use crate::device::{Base, Call, DeviceBuffer};
use crate::kernel::{lemma_recorded, whole};
use crate::semantics::{
    gains, keeps, lemma_write_whole, literal, DeviceState, SymByte,
};

verus! {

/// `n` zero bytes.
pub fn zero_bytes(n: usize) -> (bytes: Vec<u8>)
    ensures
        bytes@ == Seq::new(n as nat, |i: int| 0u8),
{
    let mut bytes: Vec<u8> = Vec::new();
    let mut i: usize = 0;
    while i < n
        invariant
            i <= n,
            bytes@ == Seq::new(i as nat, |j: int| 0u8),
        decreases n - i,
    {
        bytes.push(0);
        i = i + 1;
        assert(bytes@ =~= Seq::new(i as nat, |j: int| 0u8));
    }
    bytes
}

pub open spec fn upload_calls(buf: DeviceBuffer, bytes: Seq<u8>) -> Seq<Call> {
    seq![Call::Malloc { base: buf.base, len: buf.len }, Call::Upload { dst: buf, bytes }]
}

/// Upload bytes into a new allocation that the caller releases.
pub fn upload(ctx: &mut AscendContext, bytes: Vec<u8>) -> (buf: DeviceBuffer)
    requires
        old(ctx).wf(),
    ensures
        buf == whole(old(ctx).state().issued, bytes@.len() as int),
        final(ctx).state().issued == old(ctx).state().issued + 1,
        final(ctx).recorded(old(ctx), upload_calls(buf, bytes@)),
        gains(old(ctx).state(), final(ctx).state(), buf, literal(bytes@)),
{
    let ghost c0 = *ctx;
    let ghost st = ctx.state();
    let ghost given = bytes@;
    proof {
        ctx.lemma_safe();
    }
    let len: usize = bytes.len();
    let buf = ctx.malloc(len);
    let ghost c1 = *ctx;
    ctx.copy_h2d(&buf, bytes);
    proof {
        let one = seq![Call::Malloc { base: buf.base, len }];
        let two = seq![Call::Upload { dst: buf, bytes: given }];
        lemma_recorded(c0, c1, *ctx, one, two);
        assert(one + two =~= upload_calls(buf, given));
        lemma_write_whole(c1.state(), buf, literal(given));
        assert(ctx.state().fresh =~= st.fresh.insert(st.issued as usize, literal(given)));
    }
    buf
}

/// From `before` to `after` a cache gained `buf`, which holds `bytes`; nothing
/// else changed but scratch memory.
pub open spec fn caches(
    before: DeviceState,
    after: DeviceState,
    buf: DeviceBuffer,
    bytes: Seq<SymByte>,
) -> bool {
    &&& buf.offset == 0
    &&& buf.len == bytes.len()
    &&& buf.base matches Base::Kept(id) && {
        &&& before.issued <= id < after.issued
        &&& after.kept == before.kept.insert(id, bytes)
    }
    &&& after.fresh == before.fresh
    &&& after.slots == before.slots
    &&& keeps(before, after)
}

/// Upload bytes into a new allocation that a cache keeps.
pub fn upload_kept(ctx: &mut AscendContext, bytes: Vec<u8>) -> (buf: DeviceBuffer)
    requires
        old(ctx).wf(),
    ensures
        buf.base == Base::Kept(old(ctx).state().issued as usize),
        final(ctx).recorded(old(ctx), upload_calls(buf, bytes@)),
        caches(old(ctx).state(), final(ctx).state(), buf, literal(bytes@)),
        final(ctx).state().pool == old(ctx).state().pool,
{
    let ghost c0 = *ctx;
    let ghost st = ctx.state();
    let ghost given = bytes@;
    proof {
        ctx.lemma_safe();
    }
    let len: usize = bytes.len();
    let buf = ctx.malloc_kept(len);
    let ghost c1 = *ctx;
    ctx.copy_h2d(&buf, bytes);
    proof {
        let one = seq![Call::Malloc { base: buf.base, len }];
        let two = seq![Call::Upload { dst: buf, bytes: given }];
        lemma_recorded(c0, c1, *ctx, one, two);
        assert(one + two =~= upload_calls(buf, given));
        lemma_write_whole(c1.state(), buf, literal(given));
        assert(ctx.state().kept =~= st.kept.insert(st.issued as usize, literal(given)));
    }
    buf
}

} // verus!
