//! Device rows that are built once and kept: transposed weights, bias slices,
//! style rows, index rows.

use vstd::prelude::*;

use crate::context::AscendContext;
use crate::device::{Base, Call, DeviceBuffer, DevicePtr, HostTask};
use crate::encode::{
    all_ones, cycle, cycle_bytes, half_bytes, index_bytes, ones_bytes, position_bytes, positions,
};
use crate::host::transpose_words;
use crate::kernel::{lemma_recorded, lemma_recorded_next, lemma_recorded_nothing};
use crate::semantics::{
    delivers, is_lasting, issued_before, keeps, lemma_whole_value, lemma_write_whole, literal, no_new_writes, plus_one,
    DeviceState, SymByte,
};
use crate::transfer::{caches, upload_kept};

verus! {

/// What a kept row holds. A row that is made from a buffer is known by the address of
/// that buffer.
#[derive(Debug, Clone, Copy, PartialEq, Eq, Structural)]
pub enum RowKey {
    /// A row of ones.
    Ones { cols: usize },
    /// Positions of `tokens` tokens from `offset` on, `heads` rows each.
    Positions { tokens: i64, heads: i64, offset: usize },
    /// Row numbers of a table of `period` rows, over and over.
    Cycle { tokens: i64, period: i64 },
    /// Words `[start, start + len)` of a bias.
    Bias { at: DevicePtr, start: i64, len: i64 },
    /// The first `cols` words of a style, each plus one.
    StyleScale { at: DevicePtr, cols: usize },
    /// The second `cols` words of a style.
    StyleShift { at: DevicePtr, cols: usize },
    /// A weight with `width` columns, transposed.
    Transposed { source: DeviceBuffer, width: i64 },
}

/// `len` bytes from an address on.
pub open spec fn bytes_at(at: DevicePtr, len: int) -> DeviceBuffer {
    DeviceBuffer { base: at.base, offset: at.offset, len: len as usize }
}

impl RowKey {
    /// The memory that the row was made from.
    pub open spec fn source(self) -> Option<DeviceBuffer> {
        match self {
            RowKey::Bias { at, start, len } => Some(bytes_at(at, (start + len) * 2)),
            RowKey::StyleScale { at, cols } => Some(bytes_at(at, cols * 6)),
            RowKey::StyleShift { at, cols } => Some(bytes_at(at, cols * 6)),
            RowKey::Transposed { source, .. } => Some(source),
            _ => None,
        }
    }

    /// What the row holds where its source holds what it does in `st`.
    pub open spec fn content(self, st: DeviceState) -> Seq<SymByte> {
        match self {
            RowKey::Ones { cols } => literal(half_bytes(cols as nat, all_ones())),
            RowKey::Positions { tokens, heads, offset } => literal(
                index_bytes((tokens * heads) as nat, positions(heads as int, offset as int)),
            ),
            RowKey::Cycle { tokens, period } => literal(
                index_bytes(tokens as nat, cycle(period as int)),
            ),
            RowKey::Bias { at, start, len } => st.value(bytes_at(at, (start + len) * 2)).subrange(
                start * 2,
                start * 2 + len * 2,
            ),
            RowKey::StyleScale { at, cols } => plus_one(
                st.value(bytes_at(at, cols * 6)),
                cols as nat,
            ),
            RowKey::StyleShift { at, cols } => st.value(bytes_at(at, cols * 6)).subrange(
                cols * 2,
                cols * 2 + cols * 2,
            ),
            RowKey::Transposed { source, width } => transpose_words(
                st.value(source),
                (source.len / 2) as int / width as int,
                width as int,
                SymByte::Lit(0),
            ),
        }
    }

    /// Size of the row in bytes.
    pub open spec fn size(self) -> int {
        match self {
            RowKey::Ones { cols } => cols * 2,
            RowKey::Positions { tokens, heads, offset } => tokens * heads * 4,
            RowKey::Cycle { tokens, period } => tokens * 4,
            RowKey::Bias { at, start, len } => len * 2,
            RowKey::StyleScale { at, cols } => cols * 2,
            RowKey::StyleShift { at, cols } => cols * 2,
            RowKey::Transposed { source, width } => source.len / 2 * 2,
        }
    }
}

/// A kept row.
#[derive(Debug, Clone, Copy, PartialEq, Eq, Structural)]
pub struct KeptRow {
    pub key: RowKey,
    pub buf: DeviceBuffer,
}

/// `buf` has been handed out in `st` already.
pub open spec fn known(st: DeviceState, buf: DeviceBuffer) -> bool {
    match buf.base {
        Base::Fresh(id) => id < st.issued,
        Base::Kept(id) => st.kept.contains_key(id),
        _ => false,
    }
}

impl KeptRow {
    /// The row is the transposed weight at this address.
    pub open spec fn weight_at(self, at: DevicePtr) -> bool {
        self.key matches RowKey::Transposed { source, width } && source.ptr() == at
    }

    /// The row is live, and as long as its source is, it holds what its key says.
    pub open spec fn valid(self, st: DeviceState) -> bool {
        &&& self.buf.base is Kept
        &&& st.holds_whole(self.buf)
        &&& self.buf.len == self.key.size()
        &&& match self.key.source() {
            Some(source) => {
                &&& known(st, source)
                &&& st.holds(source) ==> st.value(self.buf) == self.key.content(st)
            },
            None => st.value(self.buf) == self.key.content(st),
        }
    }
}

/// From `before` to `after` nothing that was allocated changed: allocations may
/// be gone, and new ones may have come.
pub open spec fn stable(before: DeviceState, after: DeviceState) -> bool {
    &&& before.issued <= after.issued
    &&& forall|id: usize| #[trigger]
        after.fresh.contains_key(id) && id < before.issued ==> before.fresh.contains_key(id)
            && after.fresh[id] == before.fresh[id]
    &&& forall|id: usize| #[trigger]
        before.kept.contains_key(id) ==> after.kept.contains_key(id) && after.kept[id]
            == before.kept[id]
}

pub proof fn lemma_stable_then(a: DeviceState, b: DeviceState, c: DeviceState)
    requires
        stable(a, b),
        stable(b, c),
    ensures
        stable(a, c),
{
    assert forall|id: usize| #[trigger] c.fresh.contains_key(id) && id < a.issued implies
        a.fresh.contains_key(id) && c.fresh[id] == a.fresh[id] by {
        assert(b.fresh.contains_key(id));
    }
    assert forall|id: usize| #[trigger] a.kept.contains_key(id) implies c.kept.contains_key(id)
        && c.kept[id] == a.kept[id] by {
        assert(b.kept.contains_key(id));
    }
}

/// Gaining an allocation changes nothing else.
pub proof fn lemma_delivers_stable(
    before: DeviceState,
    after: DeviceState,
    buf: DeviceBuffer,
    bytes: Seq<SymByte>,
)
    requires
        delivers(before, after, buf, bytes),
    ensures
        stable(before, after),
{
}

pub proof fn lemma_caches_stable(
    before: DeviceState,
    after: DeviceState,
    buf: DeviceBuffer,
    bytes: Seq<SymByte>,
)
    requires
        caches(before, after, buf, bytes),
    ensures
        stable(before, after),
{
}

proof fn lemma_row_stable(row: KeptRow, before: DeviceState, after: DeviceState)
    requires
        row.valid(before),
        stable(before, after),
    ensures
        row.valid(after),
{
    match row.buf.base {
        Base::Kept(id) => {
            assert(before.kept.contains_key(id));
        },
        _ => {},
    }
    match row.key.source() {
        Some(source) => {
            match source.base {
                Base::Kept(id) => {
                    assert(before.kept.contains_key(id));
                },
                Base::Fresh(id) => {
                    if after.holds(source) {
                        assert(after.fresh.contains_key(id));
                        assert(before.fresh.contains_key(id));
                        assert(before.holds(source));
                    }
                },
                _ => {},
            }
        },
        None => {},
    }
}

/// Kept rows by key.
#[derive(Debug)]
pub struct KeptRows {
    rows: Vec<KeptRow>,
}

impl KeptRows {
    pub closed spec fn rows(&self) -> Seq<KeptRow> {
        self.rows@
    }

    pub open spec fn has(&self, key: RowKey) -> bool {
        exists|i: int| 0 <= i < self.rows().len() && (#[trigger] self.rows()[i]).key == key
    }

    pub open spec fn lists(&self, key: RowKey, buf: DeviceBuffer) -> bool {
        exists|i: int|
            0 <= i < self.rows().len() && (#[trigger] self.rows()[i]).key == key
                && self.rows()[i].buf == buf
    }

    /// There is one row for a key.
    pub open spec fn distinct(&self) -> bool {
        forall|i: int, j: int|
            0 <= i < j < self.rows().len() ==> (#[trigger] self.rows()[i]).key != (
            #[trigger] self.rows()[j]).key
    }

    pub open spec fn wf(&self, st: DeviceState) -> bool {
        &&& self.distinct()
        &&& forall|i: int| 0 <= i < self.rows().len() ==> (#[trigger] self.rows()[i]).valid(st)
    }

    /// The row of a key is one row.
    proof fn lemma_once(&self, key: RowKey, a: DeviceBuffer, b: DeviceBuffer)
        requires
            self.distinct(),
            self.lists(key, a),
            self.lists(key, b),
        ensures
            a == b,
    {
        let i = choose|i: int|
            0 <= i < self.rows().len() && (#[trigger] self.rows()[i]).key == key
                && self.rows()[i].buf == a;
        let j = choose|j: int|
            0 <= j < self.rows().len() && (#[trigger] self.rows()[j]).key == key
                && self.rows()[j].buf == b;
        if i < j {
            assert(self.rows()[i].key != self.rows()[j].key);
        } else if j < i {
            assert(self.rows()[j].key != self.rows()[i].key);
        }
    }

    pub fn new() -> (rows: KeptRows)
        ensures
            rows.rows() == Seq::<KeptRow>::empty(),
            forall|st: DeviceState| rows.wf(st),
    {
        KeptRows { rows: Vec::new() }
    }

    /// What was kept stays kept as long as nothing allocated changes.
    pub proof fn lemma_stable(&self, before: DeviceState, after: DeviceState)
        requires
            self.wf(before),
            stable(before, after),
        ensures
            self.wf(after),
    {
        assert forall|i: int| 0 <= i < self.rows().len() implies (#[trigger] self.rows()[i]).valid(
            after,
        ) by {
            lemma_row_stable(self.rows()[i], before, after);
        }
    }

    pub fn find(&self, key: RowKey) -> (buf: Option<DeviceBuffer>)
        ensures
            match buf {
                Some(b) => self.has(key) && self.lists(key, b) && (self.distinct() ==> forall|
                    other: DeviceBuffer,
                | #[trigger] self.lists(key, other) ==> other == b),
                None => !self.has(key),
            },
    {
        let mut i: usize = 0;
        while i < self.rows.len()
            invariant
                i <= self.rows@.len(),
                forall|j: int| 0 <= j < i ==> (#[trigger] self.rows@[j]).key != key,
            decreases self.rows@.len() - i,
        {
            if self.rows[i].key == key {
                let row = self.rows[i];
                proof {
                    assert(self.rows()[i as int].key == key);
                    assert(self.lists(key, row.buf));
                    if self.distinct() {
                        assert forall|other: DeviceBuffer| #[trigger]
                            self.lists(key, other) implies other == row.buf by {
                            self.lemma_once(key, other, row.buf);
                        }
                    }
                }
                return Some(row.buf);
            }
            i = i + 1;
        }
        None
    }

    /// The first transposed weight at an address.
    pub fn find_weight(&self, at: DevicePtr) -> (row: Option<KeptRow>)
        ensures
            match row {
                Some(r) => r.weight_at(at) && self.lists(r.key, r.buf) && exists|i: int|
                    0 <= i < self.rows().len() && #[trigger] self.rows()[i] == r,
                None => forall|i: int|
                    0 <= i < self.rows().len() ==> !(#[trigger] self.rows()[i]).weight_at(at),
            },
    {
        let mut i: usize = 0;
        while i < self.rows.len()
            invariant
                i <= self.rows@.len(),
                forall|j: int| 0 <= j < i ==> !(#[trigger] self.rows@[j]).weight_at(at),
            decreases self.rows@.len() - i,
        {
            let row = self.rows[i];
            match row.key {
                RowKey::Transposed { source, width: _ } => {
                    if source.as_ptr() == at {
                        assert(self.rows()[i as int] == row);
                        return Some(row);
                    }
                },
                _ => {},
            }
            i = i + 1;
        }
        None
    }

    fn insert(&mut self, key: RowKey, buf: DeviceBuffer)
        requires
            !old(self).has(key),
        ensures
            final(self).rows() == old(self).rows().push(KeptRow { key, buf }),
            final(self).has(key),
            final(self).lists(key, buf),
            old(self).distinct() ==> final(self).distinct(),
            forall|k: RowKey|
                k != key ==> (#[trigger] final(self).has(k)) == old(self).has(k),
    {
        let ghost before = self.rows();
        self.rows.push(KeptRow { key, buf });
        proof {
            let last = before.len() as int;
            assert(self.rows()[last].key == key && self.rows()[last].buf == buf);
            assert forall|j: int| 0 <= j < last implies (#[trigger] self.rows()[j]).key != key by {
                assert(self.rows()[j] == before[j]);
            }
            if old(self).distinct() {
                assert forall|i: int, j: int| 0 <= i < j < self.rows().len() implies (
                #[trigger] self.rows()[i]).key != (#[trigger] self.rows()[j]).key by {
                    if j < last {
                        assert(before[i].key != before[j].key);
                    }
                }
            }
            assert forall|k: RowKey| k != key implies (#[trigger] self.has(k)) == old(self).has(
                k,
            ) by {
                if old(self).has(k) {
                    let i = choose|i: int|
                        0 <= i < before.len() && (#[trigger] before[i]).key == k;
                    assert(self.rows()[i].key == k);
                }
                if self.has(k) {
                    let i = choose|i: int|
                        0 <= i < self.rows().len() && (#[trigger] self.rows()[i]).key == k;
                    assert(before[i].key == k);
                }
            }
        }
    }
}

/// A lookup of `key` that gave `buf`: the row holds what its key says, a row that was
/// there already is given back, and it cost nothing.
pub open spec fn obtained(
    before: AscendContext,
    after: AscendContext,
    rows_before: KeptRows,
    rows_after: KeptRows,
    key: RowKey,
    buf: DeviceBuffer,
) -> bool {
    let st = before.state();
    let end = after.state();
    &&& after.continues(&before)
    &&& rows_after.wf(end)
    &&& buf.base is Kept
    &&& buf.len == key.size()
    &&& end.holds_whole(buf)
    &&& end.value(buf) == key.content(st)
    &&& only_kept(st, end)
    &&& rows_after.has(key)
    &&& rows_after.lists(key, buf)
    &&& forall|k: RowKey| #[trigger] rows_before.has(k) ==> rows_after.has(k)
    &&& rows_before.has(key) ==> after == before && rows_after == rows_before
    &&& forall|b: DeviceBuffer| #[trigger] rows_before.lists(key, b) ==> buf == b
}

/// A lookup of a row that is there.
pub proof fn lemma_obtained_listed(ctx: AscendContext, rows: KeptRows, key: RowKey, buf: DeviceBuffer)
    requires
        ctx.wf(),
        rows.wf(ctx.state()),
        rows.lists(key, buf),
        key.source() matches Some(source) ==> ctx.state().holds(source),
    ensures
        obtained(ctx, ctx, rows, rows, key, buf),
{
    rows.lemma_found(ctx.state(), key, buf);
    assert forall|b: DeviceBuffer| #[trigger] rows.lists(key, b) implies buf == b by {
        rows.lemma_once(key, b, buf);
    }
    assert(rows.has(key));
}

/// From `before` to `after` at most kept allocations came.
pub open spec fn only_kept(before: DeviceState, after: DeviceState) -> bool {
    &&& after.fresh == before.fresh
    &&& after.slots == before.slots
    &&& after.pool == before.pool
    &&& keeps(before, after)
}

/// A lookup leaves every lasting buffer as it was.
pub proof fn lemma_only_kept(before: DeviceState, after: DeviceState)
    requires
        only_kept(before, after),
    ensures
        stable(before, after),
        forall|b: DeviceBuffer| before.holds(b) ==> #[trigger] after.holds(b),
        forall|b: DeviceBuffer| before.holds(b) ==> #[trigger] after.value(b) == before.value(b),
{
    assert forall|b: DeviceBuffer| before.holds(b) implies after.holds(b) && after.value(b)
        == before.value(b) by {
        match b.base {
            Base::Kept(id) => {
                assert(before.kept.contains_key(id));
            },
            _ => {},
        }
    }
}

/// A lasting buffer that is live has been handed out.
pub proof fn lemma_known(st: DeviceState, buf: DeviceBuffer)
    requires
        st.sane(),
        st.holds(buf),
        is_lasting(buf),
    ensures
        known(st, buf),
{
}

/// Upload what a host task computes into a new kept allocation.
fn upload_task(ctx: &mut AscendContext, task: HostTask, len: usize) -> (buf: DeviceBuffer)
    requires
        old(ctx).wf(),
        old(ctx).state().task_allowed(task),
        old(ctx).state().task_value(task).len() == len,
    ensures
        buf.base == Base::Kept((old(ctx).state().issued + 1) as usize),
        final(ctx).state().issued == old(ctx).state().issued + 2,
        final(ctx).recorded(old(ctx), task_calls(old(ctx).state().issued, task, len)),
        caches(
            old(ctx).state(),
            final(ctx).state(),
            buf,
            old(ctx).state().task_value(task),
        ),
        final(ctx).state().pool == old(ctx).state().pool,
{
    let ghost c0 = *ctx;
    let ghost st = ctx.state();
    proof {
        ctx.lemma_safe();
    }
    let slot: usize = ctx.stage(task);
    let ghost c1 = *ctx;
    let buf = ctx.malloc_kept(len);
    let ghost c2 = *ctx;
    ctx.copy_staged(&buf, slot);
    let ghost c3 = *ctx;
    ctx.unstage(slot);
    proof {
        let all = task_calls(st.issued, task, len);
        lemma_recorded_nothing(c0);
        assert(all.take(0) =~= Seq::<Call>::empty());
        lemma_recorded_next(c0, c0, c1, all, 0);
        lemma_recorded_next(c0, c1, c2, all, 1);
        lemma_recorded_next(c0, c2, c3, all, 2);
        lemma_recorded_next(c0, c3, *ctx, all, 3);
        assert(all.take(4) =~= all);
        let value = st.task_value(task);
        lemma_write_whole(c2.state(), buf, value);
        assert(ctx.state().kept =~= st.kept.insert((st.issued + 1) as usize, value));
        assert(ctx.state().staged =~= st.staged);
    }
    buf
}

/// The steps that upload what a host task computes.
pub open spec fn task_calls(issued: nat, task: HostTask, len: usize) -> Seq<Call> {
    let slot = issued as usize;
    let buf = DeviceBuffer { base: Base::Kept((issued + 1) as usize), offset: 0, len };
    seq![
        Call::Stage { slot, task },
        Call::Malloc { base: buf.base, len },
        Call::UploadStaged { dst: buf, slot },
        Call::Unstage { slot },
    ]
}

impl KeptRows {
    proof fn lemma_found(&self, st: DeviceState, key: RowKey, buf: DeviceBuffer)
        requires
            self.wf(st),
            self.lists(key, buf),
        ensures
            (KeptRow { key, buf }).valid(st),
    {
        let i = choose|i: int|
            0 <= i < self.rows().len() && (#[trigger] self.rows()[i]).key == key
                && self.rows()[i].buf == buf;
        assert(self.rows()[i].valid(st));
    }

    proof fn lemma_inserted(
        before: KeptRows,
        after: KeptRows,
        st: DeviceState,
        end: DeviceState,
        row: KeptRow,
    )
        requires
            before.wf(st),
            stable(st, end),
            row.valid(end),
            !before.has(row.key),
            after.rows() == before.rows().push(row),
        ensures
            after.wf(end),
    {
        assert(after.distinct()) by {
            assert forall|i: int, j: int| 0 <= i < j < after.rows().len() implies (
            #[trigger] after.rows()[i]).key != (#[trigger] after.rows()[j]).key by {
                assert(after.rows()[i] == before.rows()[i]);
                if j < before.rows().len() {
                    assert(before.rows()[i].key != before.rows()[j].key);
                }
            }
        }
        before.lemma_stable(st, end);
        assert forall|i: int| 0 <= i < after.rows().len() implies (#[trigger] after.rows()[i]).valid(
            end,
        ) by {
            if i < before.rows().len() {
                assert(after.rows()[i] == before.rows()[i]);
            }
        }
    }

    /// A row that is a function of its key alone.
    fn literal_row(&mut self, ctx: &mut AscendContext, key: RowKey, bytes: Vec<u8>) -> (buf:
        DeviceBuffer)
        requires
            old(ctx).wf(),
            old(self).wf(old(ctx).state()),
            !old(self).has(key),
            key.source() is None,
            key.content(old(ctx).state()) == literal(bytes@),
            key.size() == bytes@.len(),
        ensures
            obtained(*old(ctx), *final(ctx), *old(self), *final(self), key, buf),
    {
        let ghost st = ctx.state();
        let ghost before = *self;
        let buf = upload_kept(ctx, bytes);
        self.insert(key, buf);
        proof {
            let end = ctx.state();
            lemma_caches_stable(st, end, buf, literal(bytes@));
            lemma_whole_value(end, buf);
            Self::lemma_inserted(before, *self, st, end, KeptRow { key, buf });
            assert forall|k: RowKey| #[trigger] before.has(k) implies self.has(k) by {
                if k != key {
                    assert(self.has(k) == before.has(k));
                }
            }
        }
        buf
    }

    /// A row of `cols` ones.
    pub fn ones(&mut self, ctx: &mut AscendContext, cols: usize) -> (buf: DeviceBuffer)
        requires
            old(ctx).wf(),
            old(self).wf(old(ctx).state()),
            cols * 2 <= usize::MAX,
        ensures
            obtained(
                *old(ctx),
                *final(ctx),
                *old(self),
                *final(self),
                RowKey::Ones { cols },
                buf,
            ),
    {
        let key = RowKey::Ones { cols };
        match self.find(key) {
            Some(buf) => {
                proof {
                    self.lemma_found(ctx.state(), key, buf);
                }
                buf
            },
            None => {
                let bytes = ones_bytes(cols);
                self.literal_row(ctx, key, bytes)
            },
        }
    }

    /// Positions of `tokens` tokens from `offset` on, `heads` rows each.
    pub fn positions(
        &mut self,
        ctx: &mut AscendContext,
        tokens: i64,
        heads: i64,
        offset: usize,
    ) -> (buf: DeviceBuffer)
        requires
            old(ctx).wf(),
            old(self).wf(old(ctx).state()),
            0 <= tokens,
            0 <= heads,
            tokens * heads <= i64::MAX,
            offset + tokens <= i64::MAX,
        ensures
            obtained(
                *old(ctx),
                *final(ctx),
                *old(self),
                *final(self),
                RowKey::Positions { tokens, heads, offset },
                buf,
            ),
    {
        let key = RowKey::Positions { tokens, heads, offset };
        match self.find(key) {
            Some(buf) => {
                proof {
                    self.lemma_found(ctx.state(), key, buf);
                }
                buf
            },
            None => {
                let bytes = position_bytes(tokens, heads, offset);
                proof {
                    assert(0 <= tokens * heads) by (nonlinear_arith)
                        requires
                            0 <= tokens,
                            0 <= heads,
                    ;
                }
                self.literal_row(ctx, key, bytes)
            },
        }
    }

    /// Row numbers of a table of `period` rows, over and over.
    pub fn cycle(&mut self, ctx: &mut AscendContext, tokens: i64, period: i64) -> (buf:
        DeviceBuffer)
        requires
            old(ctx).wf(),
            old(self).wf(old(ctx).state()),
            0 <= tokens,
            0 < period,
        ensures
            obtained(
                *old(ctx),
                *final(ctx),
                *old(self),
                *final(self),
                RowKey::Cycle { tokens, period },
                buf,
            ),
    {
        let key = RowKey::Cycle { tokens, period };
        match self.find(key) {
            Some(buf) => {
                proof {
                    self.lemma_found(ctx.state(), key, buf);
                }
                buf
            },
            None => {
                let bytes = cycle_bytes(tokens, period);
                self.literal_row(ctx, key, bytes)
            },
        }
    }

    /// Words `[start, start + len)` of a bias.
    pub fn bias(&mut self, ctx: &mut AscendContext, source: &DeviceBuffer, start: i64, len: i64) -> (buf:
        DeviceBuffer)
        requires
            old(ctx).wf(),
            old(self).wf(old(ctx).state()),
            old(ctx).state().holds(*source),
            old(ctx).state().settled(*source),
            is_lasting(*source),
            0 <= start,
            0 <= len,
            (start + len) * 2 <= source.len,
            (start + len) * 2 <= i64::MAX,
        ensures
            obtained(
                *old(ctx),
                *final(ctx),
                *old(self),
                *final(self),
                RowKey::Bias { at: source.ptr(), start, len },
                buf,
            ),
    {
        let key = RowKey::Bias { at: source.as_ptr(), start, len };
        let ghost st = ctx.state();
        let ghost before = *self;
        let ghost used = bytes_at(source.ptr(), (start + len) * 2);
        proof {
            ctx.lemma_safe();
            assert(st.holds(used));
            lemma_known(st, used);
        }
        match self.find(key) {
            Some(buf) => {
                proof {
                    self.lemma_found(st, key, buf);
                }
                buf
            },
            None => {
                let bytes: usize = (len * 2) as usize;
                let off: usize = (start * 2) as usize;
                let slot: usize = ctx.copy_d2h(source);
                let ghost s1 = ctx.state();
                let task = HostTask::Slice { from: slot, offset: off, len: bytes };
                let buf = upload_task(ctx, task, bytes);
                let ghost s2 = ctx.state();
                ctx.unstage(slot);
                self.insert(key, buf);
                proof {
                    let end = ctx.state();
                    let value = key.content(st);
                    assert(s1.task_value(task) =~= value);
                    assert(s1.staged.remove(slot) =~= st.staged);
                    Self::lemma_made(before, *self, st, s1, s2, end, slot, key, buf, value);
                }
                buf
            },
        }
    }

    proof fn lemma_made(
        before: KeptRows,
        after: KeptRows,
        st: DeviceState,
        s1: DeviceState,
        s2: DeviceState,
        end: DeviceState,
        slot: usize,
        key: RowKey,
        buf: DeviceBuffer,
        value: Seq<SymByte>,
    )
        requires
            st.sane(),
            before.wf(st),
            slot == st.issued,
            key.source() matches Some(source) && known(st, source) && st.holds(source),
            value == key.content(st),
            value.len() == key.size(),
            s1 == (DeviceState {
                staged: s1.staged,
                issued: st.issued + 1,
                ..st
            }),
            s1.staged.remove(slot) == st.staged,
            caches(s1, s2, buf, value),
            s2.pool == s1.pool,
            end == (DeviceState { staged: s2.staged.remove(slot), dirty: end.dirty, ..s2 }),
            end.dirty.subset_of(s2.dirty),
            !before.has(key),
            after.rows() == before.rows().push(KeptRow { key, buf }),
        ensures
            after.wf(end),
            only_kept(st, end),
            end.holds_whole(buf),
            end.value(buf) == value,
    {
        assert(s2.staged == s1.staged);
        assert(end.staged =~= st.staged);
        assert(no_new_writes(st, end)) by {
            assert forall|b: Base| #[trigger]
                end.dirty.contains(b) && !(b is Pool) && issued_before(b, st.issued) implies
                st.dirty.contains(b) by {
                assert(s2.dirty.contains(b));
            }
        }
        assert(stable(st, end));
        let source = key.source()->0;
        match buf.base {
            Base::Kept(id) => {
                assert(end.kept[id] == value);
            },
            _ => {},
        }
        lemma_whole_value(end, buf);
        lemma_only_kept(st, end);
        assert(end.value(source) == st.value(source));
        Self::lemma_inserted(before, after, st, end, KeptRow { key, buf });
    }

    /// A weight with `cols` columns, transposed.
    pub fn transposed(&mut self, ctx: &mut AscendContext, source: &DeviceBuffer, cols: i64) -> (buf:
        DeviceBuffer)
        requires
            old(ctx).wf(),
            old(self).wf(old(ctx).state()),
            old(ctx).state().holds(*source),
            old(ctx).state().settled(*source),
            is_lasting(*source),
            0 < cols,
            source.len <= i64::MAX,
        ensures
            obtained(
                *old(ctx),
                *final(ctx),
                *old(self),
                *final(self),
                RowKey::Transposed { source: *source, width: cols },
                buf,
            ),
            !old(self).has(RowKey::Transposed { source: *source, width: cols })
                ==> final(self).rows() == old(self).rows().push(
                KeptRow { key: RowKey::Transposed { source: *source, width: cols }, buf },
            ),
    {
        let key = RowKey::Transposed { source: *source, width: cols };
        let ghost st = ctx.state();
        let ghost before = *self;
        proof {
            ctx.lemma_safe();
            lemma_known(st, *source);
        }
        match self.find(key) {
            Some(buf) => {
                proof {
                    self.lemma_found(st, key, buf);
                }
                buf
            },
            None => {
                let total: i64 = (source.len / 2) as i64;
                let rows: i64 = total / cols;
                proof {
                    vstd::arithmetic::div_mod::lemma_fundamental_div_mod(
                        total as int,
                        cols as int,
                    );
                    assert(0 <= rows && rows * cols <= total) by (nonlinear_arith)
                        requires
                            total == cols * (total as int / cols as int) + total as int
                                % cols as int,
                            0 <= total as int % cols as int,
                            rows == total as int / cols as int,
                            0 <= total,
                            0 < cols,
                    ;
                }
                let slot: usize = ctx.copy_d2h(source);
                let ghost s1 = ctx.state();
                let task = HostTask::Transpose { from: slot, rows, cols };
                let buf = upload_task(ctx, task, source.len / 2 * 2);
                let ghost s2 = ctx.state();
                ctx.synchronize();
                ctx.unstage(slot);
                self.insert(key, buf);
                proof {
                    let end = ctx.state();
                    let value = key.content(st);
                    assert(s1.task_value(task) =~= value);
                    assert(s1.staged.remove(slot) =~= st.staged);
                    Self::lemma_made(before, *self, st, s1, s2, end, slot, key, buf, value);
                }
                buf
            },
        }
    }

    /// The scale and shift rows of a style: its first `cols` words, each plus one,
    /// and its second `cols` words. The style may still be on its way through the
    /// stream, so a first use waits for the stream before it reads the style back.
    pub fn style(&mut self, ctx: &mut AscendContext, source: &DeviceBuffer, cols: usize) -> (rows: (
        DeviceBuffer,
        DeviceBuffer,
    ))
        requires
            old(ctx).wf(),
            old(self).wf(old(ctx).state()),
            old(ctx).state().holds(*source),
            is_lasting(*source),
            source.len == cols * 6,
        ensures
            styled(
                *old(ctx),
                *final(ctx),
                *old(self),
                *final(self),
                *source,
                cols,
                rows.0,
                rows.1,
            ),
    {
        let scale_key = RowKey::StyleScale { at: source.as_ptr(), cols };
        let shift_key = RowKey::StyleShift { at: source.as_ptr(), cols };
        let ghost st = ctx.state();
        let ghost before = *self;
        proof {
            ctx.lemma_safe();
            lemma_known(st, *source);
            assert(bytes_at(source.ptr(), cols * 6) == *source);
        }
        match (self.find(scale_key), self.find(shift_key)) {
            (Some(scale), Some(shift)) => {
                proof {
                    self.lemma_found(st, scale_key, scale);
                    self.lemma_found(st, shift_key, shift);
                }
                (scale, shift)
            },
            _ => {
                let (scale, shift) = split_style(ctx, source, cols);
                let ghost end = ctx.state();
                proof {
                    lemma_only_kept(st, end);
                    assert(end.value(*source) == st.value(*source));
                    self.lemma_stable(st, end);
                    assert((KeptRow { key: scale_key, buf: scale }).valid(end));
                    assert((KeptRow { key: shift_key, buf: shift }).valid(end));
                }
                let kept_scale = self.insert_valid(Ghost(end), scale_key, scale);
                let kept_shift = self.insert_valid(Ghost(end), shift_key, shift);
                (kept_scale, kept_shift)
            },
        }
    }

    /// Keep a row, unless its key has one already. The row that is kept is given back.
    fn insert_valid(&mut self, end: Ghost<DeviceState>, key: RowKey, buf: DeviceBuffer) -> (row:
        DeviceBuffer)
        requires
            old(self).wf(end@),
            (KeptRow { key, buf }).valid(end@),
        ensures
            final(self).wf(end@),
            final(self).has(key),
            final(self).lists(key, row),
            (KeptRow { key, buf: row }).valid(end@),
            forall|b: DeviceBuffer| #[trigger] old(self).lists(key, b) ==> row == b,
            forall|k: RowKey| #[trigger] old(self).has(k) ==> final(self).has(k),
            forall|k: RowKey, b: DeviceBuffer| #[trigger]
                old(self).lists(k, b) ==> final(self).lists(k, b),
    {
        let ghost before = *self;
        match self.find(key) {
            Some(row) => {
                proof {
                    self.lemma_found(end@, key, row);
                }
                row
            },
            None => {
                self.insert(key, buf);
                proof {
                    Self::lemma_inserted(before, *self, end@, end@, KeptRow { key, buf });
                    assert forall|k: RowKey| #[trigger] before.has(k) implies self.has(k) by {
                        if k != key {
                            assert(self.has(k) == before.has(k));
                        }
                    }
                    assert forall|k: RowKey, b: DeviceBuffer| #[trigger]
                        before.lists(k, b) implies self.lists(k, b) by {
                        let i = choose|i: int|
                            0 <= i < before.rows().len() && (#[trigger] before.rows()[i]).key == k
                                && before.rows()[i].buf == b;
                        assert(self.rows()[i] == before.rows()[i]);
                    }
                }
                buf
            },
        }
    }
}

/// Read a style back and upload its scale and shift rows.
fn split_style(ctx: &mut AscendContext, source: &DeviceBuffer, cols: usize) -> (rows: (
    DeviceBuffer,
    DeviceBuffer,
))
    requires
        old(ctx).wf(),
        old(ctx).state().holds(*source),
        is_lasting(*source),
        source.len == cols * 6,
    ensures
        final(ctx).wf(),
        rows.0.base is Kept,
        rows.1.base is Kept,
        rows.0.len == cols * 2,
        rows.1.len == cols * 2,
        final(ctx).state().holds_whole(rows.0),
        final(ctx).state().holds_whole(rows.1),
        final(ctx).state().value(rows.0) == plus_one(
            old(ctx).state().value(*source),
            cols as nat,
        ),
        final(ctx).state().value(rows.1) == old(ctx).state().value(*source).subrange(
            cols * 2,
            cols * 2 + cols * 2,
        ),
        only_kept(old(ctx).state(), final(ctx).state()),
        final(ctx).recorded(
            old(ctx),
            split_style_calls(old(ctx).state().issued, *source, cols),
        ),
{
    let ghost c0 = *ctx;
    let ghost st = ctx.state();
    proof {
        ctx.lemma_safe();
    }
    ctx.synchronize();
    let ghost c1 = *ctx;
    let slot: usize = ctx.copy_d2h(source);
    let ghost c2 = *ctx;
    let ghost s1 = ctx.state();
    proof {
        assert(s1.staged.remove(slot) =~= st.staged);
    }
    let scale_task = HostTask::PlusOne { from: slot, words: cols };
    let scale = upload_task(ctx, scale_task, cols * 2);
    let ghost c3 = *ctx;
    let ghost s2 = ctx.state();
    let shift_task = HostTask::Slice { from: slot, offset: cols * 2, len: cols * 2 };
    let shift = upload_task(ctx, shift_task, cols * 2);
    let ghost c4 = *ctx;
    ctx.unstage(slot);
    proof {
        let end = ctx.state();
        let before = st.value(*source);
        let p0 = seq![Call::Sync];
        let p1 = seq![Call::Download { src: *source, slot }];
        let p2 = task_calls(s1.issued, scale_task, (cols * 2) as usize);
        let p3 = task_calls(s2.issued, shift_task, (cols * 2) as usize);
        let p4 = seq![Call::Unstage { slot }];
        lemma_recorded(c0, c1, c2, p0, p1);
        lemma_recorded(c0, c2, c3, p0 + p1, p2);
        lemma_recorded(c0, c3, c4, p0 + p1 + p2, p3);
        lemma_recorded(c0, c4, *ctx, p0 + p1 + p2 + p3, p4);
        assert(s1.task_value(scale_task) =~= plus_one(before, cols as nat));
        assert(s2.task_value(shift_task) =~= before.subrange(cols * 2, cols * 2 + cols * 2));
        assert(end.staged =~= st.staged);
        match (scale.base, shift.base) {
            (Base::Kept(a), Base::Kept(b)) => {
                assert(end.kept[a] == plus_one(before, cols as nat));
                assert(end.kept[b] == before.subrange(cols * 2, cols * 2 + cols * 2));
            },
            _ => {},
        }
        lemma_whole_value(end, scale);
        lemma_whole_value(end, shift);
    }
    (scale, shift)
}

/// The steps that read a style back and upload its rows.
pub open spec fn split_style_calls(issued: nat, source: DeviceBuffer, cols: usize) -> Seq<Call> {
    let slot = issued as usize;
    let len = (cols * 2) as usize;
    seq![Call::Sync] + seq![Call::Download { src: source, slot }] + task_calls(
        issued + 1,
        HostTask::PlusOne { from: slot, words: cols },
        len,
    ) + task_calls(issued + 3, HostTask::Slice { from: slot, offset: len, len }, len) + seq![
        Call::Unstage { slot },
    ]
}

/// A lookup of the scale and shift rows of a style.
pub open spec fn styled(
    before: AscendContext,
    after: AscendContext,
    rows_before: KeptRows,
    rows_after: KeptRows,
    source: DeviceBuffer,
    cols: usize,
    scale: DeviceBuffer,
    shift: DeviceBuffer,
) -> bool {
    let st = before.state();
    let end = after.state();
    let scale_key = RowKey::StyleScale { at: source.ptr(), cols };
    let shift_key = RowKey::StyleShift { at: source.ptr(), cols };
    &&& after.continues(&before)
    &&& rows_after.wf(end)
    &&& scale.base is Kept
    &&& shift.base is Kept
    &&& scale.len == cols * 2
    &&& shift.len == cols * 2
    &&& end.holds_whole(scale)
    &&& end.holds_whole(shift)
    &&& end.value(scale) == scale_key.content(st)
    &&& end.value(shift) == shift_key.content(st)
    &&& only_kept(st, end)
    &&& rows_after.has(scale_key)
    &&& rows_after.has(shift_key)
    &&& rows_after.lists(scale_key, scale)
    &&& rows_after.lists(shift_key, shift)
    &&& forall|k: RowKey| #[trigger] rows_before.has(k) ==> rows_after.has(k)
    &&& forall|b: DeviceBuffer| #[trigger] rows_before.lists(scale_key, b) ==> scale == b
    &&& forall|b: DeviceBuffer| #[trigger] rows_before.lists(shift_key, b) ==> shift == b
    &&& rows_before.has(scale_key) && rows_before.has(shift_key) ==> after == before && rows_after
        == rows_before
}

} // verus!
