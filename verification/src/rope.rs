//! Rotary position tables: building them on the host, keeping them on the device,
//! and applying them to the rows of a tensor.

use vstd::prelude::*;

use crate::cache::{lemma_only_kept, only_kept, stable};
use crate::capture::{lemma_quiet, quiet};
use crate::context::AscendContext;
use crate::device::{
    AclTensor, Base, Call, DeviceBuffer, Entry, HostTask, LaunchMode, ACL_FLOAT16, ACL_INT32,
};
use crate::encode::{
    byte_of, f32_to_f16_bits, half_bytes, index_bytes, positions, rotation, rotation_bytes, to_half,
};
use crate::kernel::{lemma_recorded_next, lemma_recorded_nothing, whole};
use crate::ops::laws::{lemma_gathered_row, lemma_index_word, lemma_line};
use crate::ops::rotary::rope_value;
use crate::ops::rows::gather_value;
use crate::ops::{fp16, result};
use crate::semantics::{
    lemma_whole_value, lemma_write_whole, literal, nd, nd_view, rope_cos_table, rope_sin_table,
    yields, DeviceState, SymByte,
};
use crate::tensor::{fits, lemma_fits, lemma_one_dim};

verus! {

/// A single-precision pattern with the other sign.
pub open spec fn negated(bits: u32) -> u32 {
    if bits < 0x8000_0000 {
        (bits + 0x8000_0000) as u32
    } else {
        (bits - 0x8000_0000) as u32
    }
}

/// Word `w` of the cosine table: each angle's cosine in both halves of a row, and
/// zero in the odd channel of an odd width.
pub open spec fn cos_word(cos: Seq<u32>, d: int) -> spec_fn(int) -> int {
    |w: int|
        {
            let half = d / 2;
            let pos = w / d;
            let ch = w % d;
            if ch < half {
                to_half(cos[pos * half + ch])
            } else if ch < 2 * half {
                to_half(cos[pos * half + (ch - half)])
            } else {
                0
            }
        }
}

/// Word `w` of the sine table: each angle's sine, negated in the first half of a
/// row, so that the table carries the sign of the rotation.
pub open spec fn sin_word(sin: Seq<u32>, d: int) -> spec_fn(int) -> int {
    |w: int|
        {
            let half = d / 2;
            let pos = w / d;
            let ch = w % d;
            if ch < half {
                to_half(negated(sin[pos * half + ch]))
            } else if ch < 2 * half {
                to_half(sin[pos * half + (ch - half)])
            } else {
                0
            }
        }
}

/// Rounding commutes with a change of sign.
pub proof fn lemma_negated(bits: u32)
    ensures
        to_half(negated(bits)) == (if to_half(bits) < 0x8000 {
            to_half(bits) + 0x8000
        } else {
            to_half(bits) - 0x8000
        }),
        negated(negated(bits)) == bits,
{
    let other = negated(bits);
    assert(other as int / 0x80_0000 % 256 == bits as int / 0x80_0000 % 256);
    assert(other as int % 0x80_0000 == bits as int % 0x80_0000);
    crate::encode::lemma_half_is_normal(bits);
    let r = crate::encode::round_mantissa(bits as int % 0x80_0000);
    assert(0 <= r <= 1024);
}

proof fn lemma_angle(w: int, d: int, max_pos: int, n: int)
    requires
        0 <= w < max_pos * d,
        0 <= d,
        0 <= max_pos,
        n == max_pos * (d / 2),
    ensures
        d > 0,
        0 <= w / d < max_pos,
        0 <= w % d < d,
        w % d < d / 2 ==> 0 <= w / d * (d / 2) + w % d < n,
        d / 2 <= w % d < 2 * (d / 2) ==> 0 <= w / d * (d / 2) + (w % d - d / 2) < n,
        0 <= w / d * (d / 2) <= n,
{
    assert(d > 0) by (nonlinear_arith)
        requires
            0 < max_pos * d,
            0 <= d,
            0 <= max_pos,
    ;
    vstd::arithmetic::div_mod::lemma_fundamental_div_mod(w, d);
    let q = w / d;
    let r = w % d;
    let h = d / 2;
    assert(0 <= q < max_pos) by (nonlinear_arith)
        requires
            w == d * q + r,
            0 <= r < d,
            0 <= w < max_pos * d,
    ;
    assert(0 <= q * h && q * h + h <= max_pos * h) by (nonlinear_arith)
        requires
            0 <= q < max_pos,
            0 <= h,
    ;
}

/// Arrange `max_pos * (d / 2)` cosines, given as single-precision patterns row by
/// row, into the half-precision table.
pub fn cos_table_bytes(cos: &[u32], d: i64, max_pos: usize) -> (bytes: Vec<u8>)
    requires
        0 <= d,
        d <= usize::MAX,
        max_pos * d * 2 <= usize::MAX,
        cos@.len() == max_pos * (d as int / 2),
    ensures
        bytes@ == half_bytes((max_pos * d) as nat, cos_word(cos@, d as int)),
{
    table_bytes(cos, d, max_pos, false, Ghost(cos_word(cos@, d as int)))
}

/// Arrange `max_pos * (d / 2)` sines, given as single-precision patterns row by
/// row, into the half-precision table that carries the sign of the rotation.
pub fn sin_table_bytes(sin: &[u32], d: i64, max_pos: usize) -> (bytes: Vec<u8>)
    requires
        0 <= d,
        d <= usize::MAX,
        max_pos * d * 2 <= usize::MAX,
        sin@.len() == max_pos * (d as int / 2),
    ensures
        bytes@ == half_bytes((max_pos * d) as nat, sin_word(sin@, d as int)),
{
    table_bytes(sin, d, max_pos, true, Ghost(sin_word(sin@, d as int)))
}

fn table_bytes(
    v: &[u32],
    d: i64,
    max_pos: usize,
    negate_first: bool,
    f: Ghost<spec_fn(int) -> int>,
) -> (bytes: Vec<u8>)
    requires
        0 <= d,
        d <= usize::MAX,
        max_pos * d * 2 <= usize::MAX,
        v@.len() == max_pos * (d as int / 2),
        f@ == (if negate_first {
            sin_word(v@, d as int)
        } else {
            cos_word(v@, d as int)
        }),
    ensures
        bytes@ == half_bytes((max_pos * d) as nat, f@),
{
    let width: usize = d as usize;
    let half: usize = width / 2;
    proof {
        assert(0 <= max_pos * d) by (nonlinear_arith)
            requires
                max_pos >= 0,
                d >= 0,
        ;
    }
    let total: usize = max_pos * width;
    let given: usize = v.len();
    let mut bytes: Vec<u8> = Vec::new();
    let mut w: usize = 0;
    while w < total
        invariant
            w <= total,
            width == d,
            half == width / 2,
            0 <= d,
            total == max_pos * d,
            total * 2 <= usize::MAX,
            given == v@.len(),
            v@.len() == max_pos * (d as int / 2),
            f@ == (if negate_first {
                sin_word(v@, d as int)
            } else {
                cos_word(v@, d as int)
            }),
            bytes@.len() == 2 * w,
            forall|p: int|
                0 <= p < 2 * w ==> #[trigger] bytes@[p] == byte_of((f@)(p / 2), p % 2),
        decreases total - w,
    {
        proof {
            lemma_angle(w as int, d as int, max_pos as int, v@.len() as int);
        }
        let pos: usize = w / width;
        let ch: usize = w % width;
        let x: u16 = if ch < half {
            let bits: u32 = v[pos * half + ch];
            if negate_first {
                let flipped: u32 = if bits < 0x8000_0000 {
                    bits + 0x8000_0000
                } else {
                    bits - 0x8000_0000
                };
                f32_to_f16_bits(flipped)
            } else {
                f32_to_f16_bits(bits)
            }
        } else if ch < 2 * half {
            f32_to_f16_bits(v[pos * half + (ch - half)])
        } else {
            0
        };
        assert(x == (f@)(w as int));
        bytes.push((x % 256) as u8);
        bytes.push((x / 256 % 256) as u8);
        proof {
            assert((2 * w) as int / 2 == w && (2 * w) as int % 2 == 0);
            assert((2 * w + 1) as int / 2 == w && (2 * w + 1) as int % 2 == 1);
        }
        w = w + 1;
    }
    assert(bytes@ =~= half_bytes(total as nat, f@));
    bytes
}

/// Position tables on the device for one base frequency and row width.
#[derive(Debug, Clone, Copy, PartialEq, Eq, Structural)]
pub struct AscendRopeTables {
    /// Cosines, `[max_pos, d]`.
    pub cos: DeviceBuffer,
    /// Sines with the sign of the rotation, `[max_pos, d]`.
    pub sin_signed: DeviceBuffer,
    /// The channel that each channel rotates with.
    pub rot_idx: DeviceBuffer,
    pub d: i64,
    /// The base frequency, a single-precision pattern.
    pub theta: u32,
    pub max_pos: usize,
}

impl AscendRopeTables {
    /// The tables are live and hold what they should.
    pub open spec fn valid(self, st: DeviceState) -> bool {
        &&& self.max_pos <= i64::MAX
        &&& fits(self.max_pos as i64, self.d)
        &&& self.cos.base is Kept
        &&& self.sin_signed.base is Kept
        &&& self.rot_idx.base is Kept
        &&& st.holds_whole(self.cos)
        &&& st.holds_whole(self.sin_signed)
        &&& st.holds_whole(self.rot_idx)
        &&& st.value(self.cos) == rope_cos_table(self.theta, self.d, self.max_pos)
        &&& st.value(self.sin_signed) == rope_sin_table(self.theta, self.d, self.max_pos)
        &&& st.value(self.rot_idx) == literal(
            index_bytes(self.d as nat, rotation(self.d as int)),
        )
        &&& self.cos.len == self.max_pos * self.d * 2
        &&& self.sin_signed.len == self.max_pos * self.d * 2
        &&& self.rot_idx.len == self.d * 4
    }

    /// The tables serve `max_pos` positions of this frequency and width.
    pub open spec fn serves(self, theta: u32, d: i64, max_pos: usize) -> bool {
        self.theta == theta && self.d == d && self.max_pos >= max_pos
    }
}

/// The position tables built so far.
#[derive(Debug)]
pub struct AscendRopeCache {
    tables: Vec<AscendRopeTables>,
}

/// The length of the first of these tables that serves the request, or the
/// requested length where none does.
pub open spec fn span(tables: Seq<AscendRopeTables>, theta: u32, d: i64, max_pos: usize) -> usize
    decreases tables.len(),
{
    if tables.len() == 0 {
        max_pos
    } else if tables[0].serves(theta, d, max_pos) {
        tables[0].max_pos
    } else {
        span(tables.skip(1), theta, d, max_pos)
    }
}

proof fn lemma_span_at(
    tables: Seq<AscendRopeTables>,
    theta: u32,
    d: i64,
    max_pos: usize,
    i: int,
)
    requires
        0 <= i <= tables.len(),
        forall|j: int| 0 <= j < i ==> !(#[trigger] tables[j]).serves(theta, d, max_pos),
    ensures
        i < tables.len() && tables[i].serves(theta, d, max_pos) ==> span(
            tables,
            theta,
            d,
            max_pos,
        ) == tables[i].max_pos,
        i == tables.len() ==> span(tables, theta, d, max_pos) == max_pos,
    decreases i,
{
    if i > 0 {
        assert(!tables[0].serves(theta, d, max_pos));
        let rest = tables.skip(1);
        assert forall|j: int| 0 <= j < i - 1 implies !(#[trigger] rest[j]).serves(
            theta,
            d,
            max_pos,
        ) by {
            assert(rest[j] == tables[j + 1]);
        }
        lemma_span_at(rest, theta, d, max_pos, i - 1);
    }
}

/// Whatever tables there are, those that a request is served from cover it: there is a row
/// for the position of every one of `tokens` tokens from `offset` on.
pub proof fn lemma_span_covers(
    tables: Seq<AscendRopeTables>,
    theta: u32,
    d: i64,
    tokens: i64,
    offset: usize,
)
    requires
        0 <= tokens,
        offset + tokens <= usize::MAX,
    ensures
        span(tables, theta, d, positions_needed(tokens, offset)) >= offset + tokens,
        span(tables, theta, d, positions_needed(tokens, offset)) >= 1,
    decreases tables.len(),
{
    if tables.len() > 0 {
        lemma_span_covers(tables.skip(1), theta, d, tokens, offset);
    }
}

impl AscendRopeCache {
    pub closed spec fn built(&self) -> Seq<AscendRopeTables> {
        self.tables@
    }

    pub open spec fn has(&self, theta: u32, d: i64, max_pos: usize) -> bool {
        exists|i: int|
            0 <= i < self.built().len() && (#[trigger] self.built()[i]).serves(theta, d, max_pos)
    }

    pub open spec fn wf(&self, st: DeviceState) -> bool {
        forall|i: int| 0 <= i < self.built().len() ==> (#[trigger] self.built()[i]).valid(st)
    }

    pub fn new() -> (cache: AscendRopeCache)
        ensures
            cache.built() == Seq::<AscendRopeTables>::empty(),
            forall|st: DeviceState| cache.wf(st),
    {
        AscendRopeCache { tables: Vec::new() }
    }

    /// Tables stay valid as long as nothing allocated changes.
    pub proof fn lemma_stable(&self, before: DeviceState, after: DeviceState)
        requires
            self.wf(before),
            stable(before, after),
        ensures
            self.wf(after),
    {
        assert forall|i: int| 0 <= i < self.built().len() implies (#[trigger] self.built()[i]).valid(
            after,
        ) by {
            let t = self.built()[i];
            assert(t.valid(before));
            match (t.cos.base, t.sin_signed.base, t.rot_idx.base) {
                (Base::Kept(a), Base::Kept(b), Base::Kept(c)) => {
                    assert(before.kept.contains_key(a));
                    assert(before.kept.contains_key(b));
                    assert(before.kept.contains_key(c));
                },
                _ => {},
            }
        }
    }

    /// The first tables that serve the request, built where there are none.
    pub fn tables(&mut self, ctx: &mut AscendContext, theta: u32, d: i64, max_pos: usize) -> (t:
        AscendRopeTables)
        requires
            old(ctx).wf(),
            old(self).wf(old(ctx).state()),
            max_pos <= i64::MAX,
            fits(max_pos as i64, d),
        ensures
            final(ctx).continues(old(ctx)),
            final(self).wf(final(ctx).state()),
            t.valid(final(ctx).state()),
            t.serves(theta, d, max_pos),
            t.max_pos == span(old(self).built(), theta, d, max_pos),
            span(final(self).built(), theta, d, max_pos) == t.max_pos,
            only_kept(old(ctx).state(), final(ctx).state()),
            final(self).has(theta, d, max_pos),
            old(self).built().len() <= final(self).built().len(),
            forall|i: int|
                0 <= i < old(self).built().len() ==> #[trigger] final(self).built()[i] == old(
                    self,
                ).built()[i],
            old(self).has(theta, d, max_pos) ==> *final(ctx) == *old(ctx) && *final(self) == *old(
                self,
            ),
    {
        let mut i: usize = 0;
        while i < self.tables.len()
            invariant
                i <= self.tables@.len(),
                *self == *old(self),
                self.wf(ctx.state()),
                *ctx == *old(ctx),
                ctx.wf(),
                forall|j: int|
                    0 <= j < i ==> !(#[trigger] self.tables@[j]).serves(theta, d, max_pos),
            decreases self.tables@.len() - i,
        {
            let t = self.tables[i];
            if t.theta == theta && t.d == d && t.max_pos >= max_pos {
                proof {
                    assert(self.built()[i as int].serves(theta, d, max_pos));
                    lemma_span_at(self.built(), theta, d, max_pos, i as int);
                    assert(self.built()[i as int].valid(ctx.state()));
                }
                return t;
            }
            i = i + 1;
        }
        let ghost st = ctx.state();
        let ghost before = self.built();
        let t = build_rope_tables(ctx, theta, d, max_pos);
        proof {
            lemma_only_kept(st, ctx.state());
            self.lemma_stable(st, ctx.state());
            lemma_span_at(before, theta, d, max_pos, before.len() as int);
        }
        let ghost now = *self;
        self.tables.push(t);
        proof {
            let last = before.len() as int;
            assert(self.built()[last] == t);
            assert forall|j: int| 0 <= j < self.built().len() implies (
            #[trigger] self.built()[j]).valid(ctx.state()) by {
                if j < last {
                    assert(now.built()[j].valid(ctx.state()));
                }
            }
            assert forall|j: int| 0 <= j < last implies !(#[trigger] self.built()[j]).serves(
                theta,
                d,
                max_pos,
            ) by {
                assert(self.built()[j] == before[j]);
            }
            lemma_span_at(self.built(), theta, d, max_pos, last);
        }
        t
    }
}

impl Default for AscendRopeCache {
    fn default() -> (cache: AscendRopeCache)
        ensures
            cache.built() == Seq::<AscendRopeTables>::empty(),
    {
        AscendRopeCache::new()
    }
}

/// The steps that build position tables, from the next free identifier on.
pub open spec fn build_calls(issued: nat, theta: u32, d: i64, max_pos: usize) -> Seq<Call> {
    let len = (max_pos * d * 2) as usize;
    let cos_slot = issued as usize;
    let sin_slot = (issued + 1) as usize;
    let cos = DeviceBuffer { base: Base::Kept((issued + 2) as usize), offset: 0, len };
    let sin = DeviceBuffer { base: Base::Kept((issued + 3) as usize), offset: 0, len };
    let rot = DeviceBuffer {
        base: Base::Kept((issued + 4) as usize),
        offset: 0,
        len: (d * 4) as usize,
    };
    seq![
        Call::Stage { slot: cos_slot, task: HostTask::RopeCos { theta, d, max_pos } },
        Call::Stage { slot: sin_slot, task: HostTask::RopeSin { theta, d, max_pos } },
        Call::Malloc { base: cos.base, len },
        Call::Malloc { base: sin.base, len },
        Call::UploadStaged { dst: cos, slot: cos_slot },
        Call::UploadStaged { dst: sin, slot: sin_slot },
        Call::Malloc { base: rot.base, len: rot.len },
        Call::Upload { dst: rot, bytes: index_bytes(d as nat, rotation(d as int)) },
        Call::Sync,
        Call::Unstage { slot: sin_slot },
        Call::Unstage { slot: cos_slot },
    ]
}

/// Build position tables and wait until they are on the device.
fn build_rope_tables(ctx: &mut AscendContext, theta: u32, d: i64, max_pos: usize) -> (t:
    AscendRopeTables)
    requires
        old(ctx).wf(),
        max_pos <= i64::MAX,
        fits(max_pos as i64, d),
    ensures
        final(ctx).recorded(old(ctx), build_calls(old(ctx).state().issued, theta, d, max_pos)),
        t.valid(final(ctx).state()),
        t.theta == theta,
        t.d == d,
        t.max_pos == max_pos,
        only_kept(old(ctx).state(), final(ctx).state()),
{
    let ghost c0 = *ctx;
    let ghost st = ctx.state();
    proof {
        ctx.lemma_safe();
        lemma_fits(max_pos as i64, d);
    }
    let len: usize = max_pos * d as usize * 2;
    let cos_slot: usize = ctx.stage(HostTask::RopeCos { theta, d, max_pos });
    let ghost c1 = *ctx;
    let sin_slot: usize = ctx.stage(HostTask::RopeSin { theta, d, max_pos });
    let ghost c2 = *ctx;
    let cos = ctx.malloc_kept(len);
    let ghost c3 = *ctx;
    let sin_signed = ctx.malloc_kept(len);
    let ghost c4 = *ctx;
    let ghost cos_bytes = rope_cos_table(theta, d, max_pos);
    let ghost sin_bytes = rope_sin_table(theta, d, max_pos);
    ctx.copy_staged(&cos, cos_slot);
    let ghost c5 = *ctx;
    proof {
        lemma_write_whole(c4.state(), cos, cos_bytes);
    }
    ctx.copy_staged(&sin_signed, sin_slot);
    let ghost c6 = *ctx;
    proof {
        lemma_write_whole(c5.state(), sin_signed, sin_bytes);
    }
    let bytes = rotation_bytes(d);
    let ghost rot_bytes = bytes@;
    let rot_idx = ctx.malloc_kept(d as usize * 4);
    let ghost c7 = *ctx;
    ctx.copy_h2d(&rot_idx, bytes);
    let ghost c8 = *ctx;
    proof {
        lemma_write_whole(c7.state(), rot_idx, literal(rot_bytes));
    }
    ctx.synchronize();
    let ghost c9 = *ctx;
    ctx.unstage(sin_slot);
    let ghost c10 = *ctx;
    ctx.unstage(cos_slot);
    proof {
        let end = ctx.state();
        let all = build_calls(st.issued, theta, d, max_pos);
        lemma_recorded_nothing(c0);
        assert(all.take(0) =~= Seq::<Call>::empty());
        lemma_recorded_next(c0, c0, c1, all, 0);
        lemma_recorded_next(c0, c1, c2, all, 1);
        lemma_recorded_next(c0, c2, c3, all, 2);
        lemma_recorded_next(c0, c3, c4, all, 3);
        lemma_recorded_next(c0, c4, c5, all, 4);
        lemma_recorded_next(c0, c5, c6, all, 5);
        lemma_recorded_next(c0, c6, c7, all, 6);
        lemma_recorded_next(c0, c7, c8, all, 7);
        lemma_recorded_next(c0, c8, c9, all, 8);
        lemma_recorded_next(c0, c9, c10, all, 9);
        lemma_recorded_next(c0, c10, *ctx, all, 10);
        assert(all.take(11) =~= all);
        assert(end.staged =~= st.staged);
        assert(end.kept =~= st.kept.insert((st.issued + 2) as usize, cos_bytes).insert(
            (st.issued + 3) as usize,
            sin_bytes,
        ).insert((st.issued + 4) as usize, literal(rot_bytes)));
        lemma_whole_value(end, cos);
        lemma_whole_value(end, sin_signed);
        lemma_whole_value(end, rot_idx);
    }
    AscendRopeTables { cos, sin_signed, rot_idx, d, theta, max_pos }
}

/// The rows of a position table that the positions select.
pub open spec fn position_rows(
    table: Seq<SymByte>,
    max_pos: i64,
    d: i64,
    positions: Seq<SymByte>,
    rows: i64,
) -> Seq<SymByte> {
    result(
        (Entry::GatherV2 { dim: 0 }),
        seq![fp16(table, seq![max_pos, d]), nd(positions, seq![rows], ACL_INT32)],
        seq![rows, d],
    )
}

/// The pooled buffer in which the cosine rows are built.
pub open spec fn cos_rows_buffer(rows: i64, d: i64) -> DeviceBuffer {
    let len = (rows * d * 2) as usize;
    DeviceBuffer { base: Base::Pool(len), offset: 0, len }
}

/// Launch a gather without a workspace.
pub open spec fn gather_call(table: usize, positions: usize, out: usize) -> Call {
    Call::Launch {
        entry: Entry::GatherV2 { dim: 0 },
        inputs: seq![table, positions],
        outputs: seq![out],
        mode: LaunchMode::Bare,
        plan_op: "rope pos-gather plan"@,
        run_op: "rope pos-gather run"@,
    }
}

/// The steps that select the cosine and sine rows, from the next free identifier
/// on.
pub open spec fn gather_positions_calls(
    issued: nat,
    t: AscendRopeTables,
    positions: DeviceBuffer,
    rows: i64,
) -> Seq<Call> {
    let d = t.d;
    let len = (rows * d * 2) as usize;
    let cos = cos_rows_buffer(rows, d);
    let sin = whole((issued + 3) as nat, rows * d * 2);
    let t_cos = issued as usize;
    let t_sin = (issued + 1) as usize;
    let t_pos = (issued + 2) as usize;
    let t_cp = (issued + 4) as usize;
    let t_sp = (issued + 5) as usize;
    seq![
        Call::Describe {
            id: t_cos,
            tensor: nd_view(t.cos, seq![t.max_pos as i64, d], ACL_FLOAT16),
        },
        Call::Describe {
            id: t_sin,
            tensor: nd_view(t.sin_signed, seq![t.max_pos as i64, d], ACL_FLOAT16),
        },
        Call::Describe { id: t_pos, tensor: nd_view(positions, seq![rows], ACL_INT32) },
        Call::Scratch { len },
        Call::Malloc { base: sin.base, len },
        Call::Describe { id: t_cp, tensor: nd_view(cos, seq![rows, d], ACL_FLOAT16) },
        Call::Describe { id: t_sp, tensor: nd_view(sin, seq![rows, d], ACL_FLOAT16) },
        gather_call(t_cos, t_pos, t_cp),
        gather_call(t_sin, t_pos, t_sp),
        Call::Undescribe { id: t_sp },
        Call::Undescribe { id: t_cp },
        Call::Undescribe { id: t_pos },
        Call::Undescribe { id: t_sin },
        Call::Undescribe { id: t_cos },
    ]
}

/// Select the cosine and sine rows of the positions. The cosine rows are built in
/// scratch memory; the sine rows are as many bytes and need memory of their own.
pub(crate) fn gather_positions(
    ctx: &mut AscendContext,
    t: &AscendRopeTables,
    positions: &DeviceBuffer,
    rows: i64,
) -> (out: (DeviceBuffer, DeviceBuffer))
    requires
        old(ctx).wf(),
        t.valid(old(ctx).state()),
        fits(rows, t.d),
        old(ctx).state().holds(*positions),
        positions.base is Kept,
        positions.len == rows * 4,
    ensures
        out.0 == cos_rows_buffer(rows, t.d),
        out.0.len == rows * t.d * 2,
        out.1 == whole((old(ctx).state().issued + 3) as nat, rows * t.d * 2),
        final(ctx).recorded(
            old(ctx),
            gather_positions_calls(old(ctx).state().issued, *t, *positions, rows),
        ),
        quiet(*old(ctx), *final(ctx)),
        yields(
            old(ctx).state(),
            final(ctx).state(),
            out.1,
            position_rows(
                old(ctx).state().value(t.sin_signed),
                t.max_pos as i64,
                t.d,
                old(ctx).state().value(*positions),
                rows,
            ),
        ),
        final(ctx).state().kept == old(ctx).state().kept,
        final(ctx).state().holds_whole(out.0),
        final(ctx).state().value(out.0) == position_rows(
            old(ctx).state().value(t.cos),
            t.max_pos as i64,
            t.d,
            old(ctx).state().value(*positions),
            rows,
        ),
{
    let ghost c0 = *ctx;
    let ghost s0 = ctx.state();
    let d: i64 = t.d;
    let max_pos: i64 = t.max_pos as i64;
    proof {
        ctx.lemma_safe();
        lemma_fits(max_pos, d);
        lemma_fits(rows, d);
        lemma_one_dim(rows);
        assert(max_pos * d * 2 == t.max_pos * t.d * 2);
    }
    let table_shape: Vec<i64> = vec![max_pos, d];
    let index_shape: Vec<i64> = vec![rows];
    let shape: Vec<i64> = vec![rows, d];
    assert(table_shape@ =~= seq![max_pos, d]);
    assert(index_shape@ =~= seq![rows]);
    assert(shape@ =~= seq![rows, d]);
    let len: usize = (rows * d * 2) as usize;
    let t_cos = ctx.describe(AclTensor::fp16_nd(&t.cos, &table_shape));
    let ghost c1 = *ctx;
    let t_sin = ctx.describe(AclTensor::fp16_nd(&t.sin_signed, &table_shape));
    let ghost c2 = *ctx;
    let t_pos = ctx.describe(AclTensor::i32_nd(positions, &index_shape));
    let ghost c3 = *ctx;
    let cos_pos = ctx.scratch_buf(len);
    let ghost c4 = *ctx;
    let sin_pos = ctx.malloc(len);
    let ghost c5 = *ctx;
    let t_cp = ctx.describe(AclTensor::fp16_nd(&cos_pos, &shape));
    let ghost c6 = *ctx;
    let t_sp = ctx.describe(AclTensor::fp16_nd(&sin_pos, &shape));
    let ghost c7 = *ctx;
    let entry = Entry::GatherV2 { dim: 0 };
    let ghost pv = s0.value(*positions);
    let ghost cv = position_rows(s0.value(t.cos), max_pos, d, pv, rows);
    let ghost sv = position_rows(s0.value(t.sin_signed), max_pos, d, pv, rows);
    proof {
        let ins = seq![t_cos, t_pos];
        assert(c7.state().operands(ins) =~= seq![
            fp16(s0.value(t.cos), seq![max_pos, d]),
            nd(pv, seq![rows], ACL_INT32),
        ]);
        reveal(result);
        reveal_with_fuel(DeviceState::with_outputs, 2);
        lemma_write_whole(c7.state(), cos_pos, cv);
    }
    let cos_inputs: Vec<usize> = vec![t_cos, t_pos];
    let cos_outputs: Vec<usize> = vec![t_cp];
    assert(cos_inputs@ =~= seq![t_cos, t_pos]);
    assert(cos_outputs@ =~= seq![t_cp]);
    ctx.launch(
        entry,
        cos_inputs,
        cos_outputs,
        LaunchMode::Bare,
        "rope pos-gather plan",
        "rope pos-gather run",
    );
    let ghost c8 = *ctx;
    proof {
        let ins = seq![t_sin, t_pos];
        assert(c8.state().operands(ins) =~= seq![
            fp16(s0.value(t.sin_signed), seq![max_pos, d]),
            nd(pv, seq![rows], ACL_INT32),
        ]);
        reveal(result);
        reveal_with_fuel(DeviceState::with_outputs, 2);
        lemma_write_whole(c8.state(), sin_pos, sv);
    }
    let sin_inputs: Vec<usize> = vec![t_sin, t_pos];
    let sin_outputs: Vec<usize> = vec![t_sp];
    assert(sin_inputs@ =~= seq![t_sin, t_pos]);
    assert(sin_outputs@ =~= seq![t_sp]);
    ctx.launch(
        entry,
        sin_inputs,
        sin_outputs,
        LaunchMode::Bare,
        "rope pos-gather plan",
        "rope pos-gather run",
    );
    let ghost c9 = *ctx;
    ctx.undescribe(t_sp);
    let ghost c10 = *ctx;
    ctx.undescribe(t_cp);
    let ghost c11 = *ctx;
    ctx.undescribe(t_pos);
    let ghost c12 = *ctx;
    ctx.undescribe(t_sin);
    let ghost c13 = *ctx;
    ctx.undescribe(t_cos);
    proof {
        let end = ctx.state();
        let all = gather_positions_calls(s0.issued, *t, *positions, rows);
        lemma_recorded_nothing(c0);
        assert(all.take(0) =~= Seq::<Call>::empty());
        lemma_recorded_next(c0, c0, c1, all, 0);
        lemma_recorded_next(c0, c1, c2, all, 1);
        lemma_recorded_next(c0, c2, c3, all, 2);
        lemma_recorded_next(c0, c3, c4, all, 3);
        lemma_recorded_next(c0, c4, c5, all, 4);
        lemma_recorded_next(c0, c5, c6, all, 5);
        lemma_recorded_next(c0, c6, c7, all, 6);
        lemma_recorded_next(c0, c7, c8, all, 7);
        lemma_recorded_next(c0, c8, c9, all, 8);
        lemma_recorded_next(c0, c9, c10, all, 9);
        lemma_recorded_next(c0, c10, c11, all, 10);
        lemma_recorded_next(c0, c11, c12, all, 11);
        lemma_recorded_next(c0, c12, c13, all, 12);
        lemma_recorded_next(c0, c13, *ctx, all, 13);
        assert(all.take(14) =~= all);
        lemma_quiet(c0, *ctx, all);
        assert(end.tensors =~= s0.tensors);
        assert(end.fresh =~= s0.fresh.insert((s0.issued + 3) as usize, sv));
        lemma_whole_value(end, cos_pos);
    }
    (cos_pos, sin_pos)
}

/// What [`apply_rope_rows`] computes: the rows of `x`, each rotated by the angles of
/// its token's position, taken from tables of `max_pos` positions.
pub open spec fn rope_rows_value(
    x: Seq<SymByte>,
    tokens: i64,
    heads: i64,
    d: i64,
    theta: u32,
    offset: usize,
    max_pos: usize,
) -> Seq<SymByte> {
    let rows = (tokens * heads) as i64;
    let pos = literal(index_bytes(rows as nat, positions(heads as int, offset as int)));
    rope_value(
        x,
        rows,
        d,
        position_rows(rope_cos_table(theta, d, max_pos), max_pos as i64, d, pos, rows),
        position_rows(rope_sin_table(theta, d, max_pos), max_pos as i64, d, pos, rows),
        literal(index_bytes(d as nat, rotation(d as int))),
    )
}

/// The positions that tables must cover.
pub open spec fn positions_needed(tokens: i64, offset: usize) -> usize {
    if offset + tokens > 1 {
        (offset + tokens) as usize
    } else {
        1
    }
}

/// The bytes that a byte of the cosine table on the device stands for, where these are
/// the cosines of its angles, position by position.
pub open spec fn cos_meaning(cos: Seq<u32>, byte: SymByte) -> int {
    match byte {
        SymByte::RopeCos { theta, d, pos, channel, upper } => byte_of(
            to_half(cos[pos * (d as int / 2) + channel]) as int,
            if upper {
                1
            } else {
                0
            },
        ) as int,
        SymByte::Lit(b) => b as int,
        _ => -1,
    }
}

/// As [`cos_meaning`], of the sine table.
pub open spec fn sin_meaning(sin: Seq<u32>, byte: SymByte) -> int {
    match byte {
        SymByte::RopeSin { theta, d, pos, channel, negated, upper } => {
            let bits = sin[pos * (d as int / 2) + channel];
            byte_of(
                (if negated {
                    to_half(self::negated(bits))
                } else {
                    to_half(bits)
                }) as int,
                if upper {
                    1
                } else {
                    0
                },
            ) as int
        },
        SymByte::Lit(b) => b as int,
        _ => -1,
    }
}

/// A channel of a row, folded to the first half.
proof fn lemma_folded(ch: int, half: int)
    requires
        0 <= ch < 2 * half,
    ensures
        ch % half == (if ch < half {
            ch
        } else {
            ch - half
        }),
{
    if ch < half {
        vstd::arithmetic::div_mod::lemma_small_mod(ch as nat, half as nat);
    } else {
        vstd::arithmetic::div_mod::lemma_fundamental_div_mod_converse(ch, half, 1, ch - half);
    }
}

/// The tables on the device are the tables that [`cos_table_bytes`] and
/// [`sin_table_bytes`] arrange: every byte stands for the byte at its place.
pub proof fn lemma_tables(
    theta: u32,
    d: i64,
    max_pos: usize,
    cos: Seq<u32>,
    sin: Seq<u32>,
    i: int,
)
    requires
        0 < d,
        0 <= i < max_pos * d * 2,
    ensures
        half_bytes((max_pos * d) as nat, cos_word(cos, d as int))[i] == cos_meaning(
            cos,
            rope_cos_table(theta, d, max_pos)[i],
        ),
        half_bytes((max_pos * d) as nat, sin_word(sin, d as int))[i] == sin_meaning(
            sin,
            rope_sin_table(theta, d, max_pos)[i],
        ),
{
    let half = d as int / 2;
    let ch = i / 2 % (d as int);
    if ch < 2 * half {
        lemma_folded(ch, half);
    }
    assert(byte_of(0, i % 2) == 0);
}

/// Both halves of a row of the device tables belong to the same angles: the cosines are
/// equal, and the sines have opposite signs.
pub proof fn lemma_halves(theta: u32, d: i64, max_pos: usize, pos: int, ch: int, byte: int)
    requires
        0 <= pos < max_pos,
        0 <= ch < d as int / 2,
        0 <= byte < 2,
    ensures
        ({
            let half = d as int / 2;
            let cos = rope_cos_table(theta, d, max_pos);
            let sin = rope_sin_table(theta, d, max_pos);
            let a = 2 * (pos * d + ch) + byte;
            let b = 2 * (pos * d + ch + half) + byte;
            let upper = byte == 1;
            &&& 0 <= a < b < cos.len()
            &&& cos[a] == SymByte::RopeCos { theta, d, pos, channel: ch, upper }
            &&& cos[b] == cos[a]
            &&& sin[a] == SymByte::RopeSin { theta, d, pos, channel: ch, negated: true, upper }
            &&& sin[b] == SymByte::RopeSin { theta, d, pos, channel: ch, negated: false, upper }
        }),
{
    let half = d as int / 2;
    lemma_line(pos, d as int, ch, max_pos as int);
    lemma_line(pos, d as int, ch + half, max_pos as int);
    lemma_folded(ch, half);
    lemma_folded(ch + half, half);
    assert((2 * (pos * d + ch) + byte) / 2 == pos * d + ch);
    assert((2 * (pos * d + ch + half) + byte) / 2 == pos * d + ch + half);
}

/// The row of a token in the gathered tables is the table row of its position.
pub proof fn lemma_position_row(
    table: Seq<SymByte>,
    max_pos: i64,
    d: i64,
    rows: i64,
    heads: i64,
    offset: usize,
    r: int,
    c: int,
)
    requires
        0 <= r < rows,
        0 < heads,
        0 <= c < d * 2,
        offset + r / (heads as int) < max_pos,
        offset + r / (heads as int) <= i32::MAX,
    ensures
        ({
            let idx = literal(index_bytes(rows as nat, positions(heads as int, offset as int)));
            position_rows(table, max_pos, d, idx, rows)[r * (d * 2) + c] == table[(offset + r / (
            heads as int)) * (d * 2) + c]
        }),
{
    let f = positions(heads as int, offset as int);
    let idx = literal(index_bytes(rows as nat, f));
    assert(0 <= r / (heads as int)) by (nonlinear_arith)
        requires
            0 <= r,
            0 < heads,
    ;
    lemma_index_word(rows as nat, f, r);
    lemma_gathered_row(table, max_pos, d, idx, rows, r, f(r), c);
    assert(position_rows(table, max_pos, d, idx, rows) == gather_value(
        table,
        max_pos,
        d,
        idx,
        rows,
    ));
}

} // verus!
