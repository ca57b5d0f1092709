//! What the executor keeps from call to call.

use vstd::prelude::*;

use crate::cache::{
    lemma_caches_stable, lemma_obtained_listed, obtained, only_kept, lemma_only_kept, stable,
    KeptRows, RowKey,
};
use crate::context::AscendContext;
use crate::device::{Base, DeviceBuffer, DevicePtr};
use crate::encode::{id_bytes, index_bytes, listed};
use crate::rope::AscendRopeCache;
use crate::semantics::{is_lasting, lemma_whole_value, literal, DeviceState};
use crate::transfer::upload_kept;

verus! {

/// Weights that have been transposed, by address. The product reads a weight through a
/// transposed view, so every linear weight is transposed on the host once, at its first
/// use.
#[derive(Debug)]
pub struct NzCache {
    pub rows: KeptRows,
}

impl NzCache {
    /// Nothing has been transposed yet.
    pub open spec fn is_fresh(&self) -> bool {
        self.rows.rows().len() == 0
    }

    /// `buf` is the transposed weight at this address.
    pub open spec fn lists(&self, at: DevicePtr, buf: DeviceBuffer) -> bool {
        exists|i: int|
            0 <= i < self.rows.rows().len() && (#[trigger] self.rows.rows()[i]).weight_at(at)
                && self.rows.rows()[i].buf == buf
    }

    /// The weight at this address has been transposed.
    pub open spec fn has(&self, at: DevicePtr) -> bool {
        exists|i: int|
            0 <= i < self.rows.rows().len() && (#[trigger] self.rows.rows()[i]).weight_at(at)
    }

    /// There is one transposed weight for an address.
    pub open spec fn one_each(&self) -> bool {
        let rows = self.rows.rows();
        forall|i: int, j: int, at: DevicePtr|
            0 <= i < j < rows.len() && #[trigger] rows[i].weight_at(at) ==> !(
            #[trigger] rows[j].weight_at(at))
    }

    /// Every transposed weight is live, and no address has two.
    pub open spec fn wf(&self, st: DeviceState) -> bool {
        self.rows.wf(st) && self.one_each()
    }

    pub fn new() -> (cache: NzCache)
        ensures
            cache.is_fresh(),
            forall|st: DeviceState| cache.wf(st),
            forall|key: RowKey| !cache.rows.has(key),
    {
        NzCache { rows: KeptRows::new() }
    }

    /// The transposed weight, made at its first use: every later use of a weight at
    /// the same address is given the same buffer.
    pub fn get(&mut self, ctx: &mut AscendContext, w: &DeviceBuffer, cols_out: i64) -> (buf:
        DeviceBuffer)
        requires
            old(ctx).wf(),
            old(self).wf(old(ctx).state()),
            old(ctx).state().holds(*w),
            old(ctx).state().settled(*w),
            is_lasting(*w),
            0 < cols_out,
            w.len <= i64::MAX,
        ensures
            final(self).wf(final(ctx).state()),
            final(self).lists(w.ptr(), buf),
            old(self).has(w.ptr()) ==> *final(ctx) == *old(ctx) && *final(self) == *old(self),
            forall|b: DeviceBuffer| #[trigger] old(self).lists(w.ptr(), b) ==> buf == b,
            !old(self).has(w.ptr()) || old(self).rows.has(
                RowKey::Transposed { source: *w, width: cols_out },
            ) ==> obtained(
                *old(ctx),
                *final(ctx),
                old(self).rows,
                final(self).rows,
                RowKey::Transposed { source: *w, width: cols_out },
                buf,
            ),
    {
        let ghost before = *self;
        let ghost at = w.ptr();
        let ghost key = RowKey::Transposed { source: *w, width: cols_out };
        match self.rows.find_weight(w.as_ptr()) {
            Some(row) => {
                proof {
                    let rows = self.rows.rows();
                    let k = choose|i: int| 0 <= i < rows.len() && #[trigger] rows[i] == row;
                    assert(rows[k].weight_at(at));
                    assert forall|b: DeviceBuffer| #[trigger]
                        self.lists(at, b) implies row.buf == b by {
                        let i = choose|i: int|
                            0 <= i < rows.len() && (#[trigger] rows[i]).weight_at(at)
                                && rows[i].buf == b;
                        self.lemma_one(at, i, k);
                    }
                    if self.rows.has(key) {
                        let i = choose|i: int|
                            0 <= i < rows.len() && (#[trigger] rows[i]).key == key;
                        assert(rows[i].weight_at(at));
                        self.lemma_one(at, i, k);
                        lemma_obtained_listed(*ctx, self.rows, key, row.buf);
                    }
                }
                row.buf
            },
            None => {
                proof {
                    if self.rows.has(key) {
                        let i = choose|i: int|
                            0 <= i < self.rows.rows().len() && (
                            #[trigger] self.rows.rows()[i]).key == key;
                        assert(self.rows.rows()[i].weight_at(at));
                    }
                }
                let buf = self.rows.transposed(ctx, w, cols_out);
                proof {
                    let rows = self.rows.rows();
                    let n = before.rows.rows().len() as int;
                    assert(rows[n].weight_at(at) && rows[n].buf == buf);
                    assert forall|i: int, j: int, p: DevicePtr|
                        0 <= i < j < rows.len() && #[trigger] rows[i].weight_at(p) implies !(
                    #[trigger] rows[j].weight_at(p)) by {
                        assert(rows[i] == before.rows.rows()[i]);
                        if j < n {
                            assert(rows[j] == before.rows.rows()[j]);
                        }
                    }
                }
                buf
            },
        }
    }

    /// The transposed weight at an address is one row.
    proof fn lemma_one(&self, at: DevicePtr, i: int, j: int)
        requires
            self.one_each(),
            0 <= i < self.rows.rows().len(),
            0 <= j < self.rows.rows().len(),
            self.rows.rows()[i].weight_at(at),
            self.rows.rows()[j].weight_at(at),
        ensures
            i == j,
    {
    }
}

impl Default for NzCache {
    fn default() -> (cache: NzCache)
        ensures
            cache.is_fresh(),
    {
        NzCache::new()
    }
}

/// The index row of a token sequence.
#[derive(Debug)]
pub struct TokenRow {
    pub ids: Vec<u32>,
    pub buf: DeviceBuffer,
}

impl TokenRow {
    pub open spec fn valid(&self, st: DeviceState) -> bool {
        &&& self.buf.base is Kept
        &&& st.holds_whole(self.buf)
        &&& self.buf.len == self.ids@.len() * 4
        &&& st.value(self.buf) == literal(index_bytes(self.ids@.len(), listed(self.ids@)))
    }
}

/// What the executor keeps from call to call.
#[derive(Debug)]
pub struct AscendCaches {
    pub rope: AscendRopeCache,
    pub nz: NzCache,
    /// Style, bias, position and ones rows.
    pub rows: KeptRows,
    /// Token index rows, by token sequence.
    pub token_idx: Vec<TokenRow>,
}

impl AscendCaches {
    /// Every kept buffer is live and holds what it should.
    pub open spec fn wf(&self, st: DeviceState) -> bool {
        &&& self.rope.wf(st)
        &&& self.nz.wf(st)
        &&& self.rows.wf(st)
        &&& forall|i: int|
            0 <= i < self.token_idx@.len() ==> (#[trigger] self.token_idx@[i]).valid(st)
    }

    /// Nothing has been kept yet.
    pub open spec fn is_fresh(&self) -> bool {
        &&& self.rope.built().len() == 0
        &&& self.nz.is_fresh()
        &&& self.rows.rows().len() == 0
        &&& self.token_idx@.len() == 0
    }

    pub fn new() -> (caches: AscendCaches)
        ensures
            caches.is_fresh(),
            forall|st: DeviceState| caches.wf(st),
    {
        AscendCaches {
            rope: AscendRopeCache::new(),
            nz: NzCache::new(),
            rows: KeptRows::new(),
            token_idx: Vec::new(),
        }
    }

    /// The caches stay valid as long as nothing allocated changes.
    pub proof fn lemma_stable(&self, before: DeviceState, after: DeviceState)
        requires
            self.wf(before),
            stable(before, after),
        ensures
            self.wf(after),
    {
        self.rope.lemma_stable(before, after);
        self.nz.rows.lemma_stable(before, after);
        self.rows.lemma_stable(before, after);
        assert forall|i: int| 0 <= i < self.token_idx@.len() implies (
        #[trigger] self.token_idx@[i]).valid(after) by {
            assert(self.token_idx@[i].valid(before));
            match self.token_idx@[i].buf.base {
                Base::Kept(id) => {
                    assert(before.kept.contains_key(id));
                },
                _ => {},
            }
        }
    }

    /// Nothing that was there is gone.
    pub open spec fn includes(&self, before: AscendCaches) -> bool {
        &&& forall|k: RowKey| #[trigger] before.rows.has(k) ==> self.rows.has(k)
        &&& forall|k: RowKey| #[trigger] before.nz.rows.has(k) ==> self.nz.rows.has(k)
        &&& before.rope.built().len() <= self.rope.built().len()
        &&& forall|i: int|
            0 <= i < before.rope.built().len() ==> #[trigger] self.rope.built()[i]
                == before.rope.built()[i]
        &&& forall|ids: Seq<u32>| #[trigger] before.has_tokens(ids) ==> self.has_tokens(ids)
    }

    /// The index row of this token sequence is there.
    pub open spec fn has_tokens(&self, ids: Seq<u32>) -> bool {
        exists|i: int| 0 <= i < self.token_idx@.len() && (#[trigger] self.token_idx@[i]).ids@ == ids
    }

    /// The position of the index row of a token sequence.
    fn find_tokens(&self, ids: &[u32]) -> (found: Option<usize>)
        ensures
            match found {
                Some(i) => i < self.token_idx@.len() && self.token_idx@[i as int].ids@ == ids@,
                None => !self.has_tokens(ids@),
            },
    {
        let mut i: usize = 0;
        while i < self.token_idx.len()
            invariant
                i <= self.token_idx@.len(),
                forall|j: int| 0 <= j < i ==> (#[trigger] self.token_idx@[j]).ids@ != ids@,
            decreases self.token_idx@.len() - i,
        {
            if same_ids(&self.token_idx[i].ids, ids) {
                return Some(i);
            }
            i = i + 1;
        }
        None
    }

    /// The index row of a token sequence, made at its first use.
    pub fn token_row(&mut self, ctx: &mut AscendContext, ids: &[u32]) -> (buf: DeviceBuffer)
        requires
            old(ctx).wf(),
            old(self).wf(old(ctx).state()),
        ensures
            final(ctx).continues(old(ctx)),
            caches_kept(*old(self), *final(self), final(ctx).state()),
            final(self).rope == old(self).rope,
            final(self).nz == old(self).nz,
            final(self).rows == old(self).rows,
            buf.base is Kept,
            buf.len == ids@.len() * 4,
            final(ctx).state().holds_whole(buf),
            final(ctx).state().value(buf) == literal(index_bytes(ids@.len(), listed(ids@))),
            only_kept(old(ctx).state(), final(ctx).state()),
            final(self).has_tokens(ids@),
            old(self).has_tokens(ids@) ==> *final(ctx) == *old(ctx) && *final(self) == *old(self),
    {
        match self.find_tokens(ids) {
            Some(i) => {
                assert(self.token_idx@[i as int].valid(ctx.state()));
                self.token_idx[i].buf
            },
            None => {
                let ghost st = ctx.state();
                let ghost before = *self;
                let bytes = id_bytes(ids);
                let buf = upload_kept(ctx, bytes);
                let ghost end = ctx.state();
                let kept = copy_ids(ids);
                self.token_idx.push(TokenRow { ids: kept, buf });
                proof {
                    lemma_caches_stable(st, end, buf, literal(bytes@));
                    lemma_whole_value(end, buf);
                    before.lemma_stable(st, end);
                    let n = before.token_idx@.len() as int;
                    assert(self.token_idx@[n].ids@ == ids@);
                    assert(self.token_idx@[n].valid(end));
                    assert forall|i: int| 0 <= i < self.token_idx@.len() implies (
                    #[trigger] self.token_idx@[i]).valid(end) by {
                        if i < n {
                            assert(self.token_idx@[i] == before.token_idx@[i]);
                        }
                    }
                    assert forall|other: Seq<u32>| #[trigger] before.has_tokens(
                        other,
                    ) implies self.has_tokens(other) by {
                        let i = choose|i: int|
                            0 <= i < before.token_idx@.len() && (
                            #[trigger] before.token_idx@[i]).ids@ == other;
                        assert(self.token_idx@[i].ids@ == other);
                    }
                }
                buf
            },
        }
    }
}

impl Default for AscendCaches {
    fn default() -> (caches: AscendCaches)
        ensures
            caches.is_fresh(),
    {
        AscendCaches::new()
    }
}

/// The weight has been transposed for this width already.
pub open spec fn weight_warm(caches: AscendCaches, w: DeviceBuffer, n: i64) -> bool {
    let key = RowKey::Transposed { source: w, width: n };
    caches.nz.rows.has(key) || caches.rows.has(key)
}

impl AscendCaches {
    /// The transposed weight that a product with `n` columns reads. A weight that was
    /// first used with another width has a transposed copy of its own for this one.
    pub fn weight(&mut self, ctx: &mut AscendContext, w: &DeviceBuffer, n: i64) -> (buf:
        DeviceBuffer)
        requires
            old(ctx).wf(),
            old(self).wf(old(ctx).state()),
            old(ctx).state().holds(*w),
            old(ctx).state().settled(*w),
            is_lasting(*w),
            0 < n,
            w.len <= i64::MAX,
        ensures
            final(ctx).continues(old(ctx)),
            caches_kept(*old(self), *final(self), final(ctx).state()),
            final(self).rope == old(self).rope,
            final(self).token_idx == old(self).token_idx,
            buf.base is Kept,
            buf.len == w.len / 2 * 2,
            final(ctx).state().holds_whole(buf),
            final(ctx).state().value(buf) == (RowKey::Transposed {
                source: *w,
                width: n,
            }).content(old(ctx).state()),
            only_kept(old(ctx).state(), final(ctx).state()),
            weight_warm(*final(self), *w, n),
            weight_warm(*old(self), *w, n) ==> *final(ctx) == *old(ctx) && *final(self) == *old(
                self,
            ),
            !old(self).nz.has(w.ptr()) && !weight_warm(*old(self), *w, n) ==> final(self).nz.lists(
                w.ptr(),
                buf,
            ) && final(self).rows == old(self).rows,
    {
        let key = RowKey::Transposed { source: *w, width: n };
        let ghost st = ctx.state();
        let ghost before = *self;
        let buf = if self.nz.rows.find(key).is_some() {
            self.nz.get(ctx, w, n)
        } else if self.rows.find(key).is_some() || self.nz.rows.find_weight(
            w.as_ptr(),
        ).is_some() {
            self.rows.transposed(ctx, w, n)
        } else {
            self.nz.get(ctx, w, n)
        };
        proof {
            lemma_only_kept(st, ctx.state());
            before.lemma_stable(st, ctx.state());
        }
        buf
    }
}

/// Two token sequences are the same.
fn same_ids(a: &Vec<u32>, b: &[u32]) -> (same: bool)
    ensures
        same == (a@ == b@),
{
    if a.len() != b.len() {
        return false;
    }
    let mut i: usize = 0;
    while i < a.len()
        invariant
            i <= a@.len(),
            a@.len() == b@.len(),
            forall|j: int| 0 <= j < i ==> #[trigger] a@[j] == b@[j],
        decreases a@.len() - i,
    {
        if a[i] != b[i] {
            return false;
        }
        i = i + 1;
    }
    assert(a@ =~= b@);
    true
}

fn copy_ids(ids: &[u32]) -> (out: Vec<u32>)
    ensures
        out@ == ids@,
{
    let mut out: Vec<u32> = Vec::new();
    let mut i: usize = 0;
    while i < ids.len()
        invariant
            i <= ids@.len(),
            out@ == ids@.take(i as int),
        decreases ids@.len() - i,
    {
        out.push(ids[i]);
        i = i + 1;
        assert(out@ =~= ids@.take(i as int));
    }
    assert(ids@.take(i as int) =~= ids@);
    out
}

/// What a step of a layer leaves the caches in: valid, and with all they had.
pub open spec fn caches_kept(before: AscendCaches, after: AscendCaches, st: DeviceState) -> bool {
    after.wf(st) && after.includes(before)
}

} // verus!
