//! Moving and selecting rows.

use vstd::prelude::*;

use crate::capture::{lemma_quiet, quiet};
use crate::context::AscendContext;
use crate::device::{
    AclTensor, Base, Call, DeviceBuffer, Entry, TensorView, ACL_FLOAT16, ACL_INT32,
};
use crate::kernel::{
    kernel_calls, lemma_recorded, lemma_recorded_next, lemma_recorded_nothing, values, views, whole,
    Order,
};
use crate::ops::{fp16, fp16_out, is_fp16, is_i32_row, ran, result, single};
use crate::semantics::{
    covered, gains, lemma_gains, lemma_releasable, lemma_write_whole, literal, nd, nd_view, splice,
    undefined, DeviceState, SymByte,
};
use crate::tensor::{fits, lemma_fits, lemma_one_dim, lemma_two_dims, shape_fits};
use crate::transfer::{upload, upload_calls, zero_bytes};

verus! {

/// What [`gather_rows_fp16`] computes.
pub open spec fn gather_value(table: Seq<SymByte>, vocab: i64, dim: i64, indices: Seq<SymByte>, n: i64) -> Seq<SymByte> {
    result(
        (Entry::GatherV2 { dim: 0 }),
        seq![fp16(table, seq![vocab, dim]), nd(indices, seq![n], ACL_INT32)],
        seq![n, dim],
    )
}

/// Rows of `table`, which is `[vocab, dim]`, selected by `n` device-resident
/// indices.
pub fn gather_rows_fp16(
    ctx: &mut AscendContext,
    table: &DeviceBuffer,
    vocab: i64,
    dim: i64,
    indices: &DeviceBuffer,
    n: i64,
) -> (out: DeviceBuffer)
    requires
        old(ctx).wf(),
        is_fp16(old(ctx).state(), *table, seq![vocab, dim]),
        is_i32_row(old(ctx).state(), *indices, n),
        fits(n, dim),
    ensures
        ran(
            *old(ctx),
            *final(ctx),
            out,
            (Entry::GatherV2 { dim: 0 }),
            Order::OutputsFirst,
            seq![nd_view(*table, seq![vocab, dim], ACL_FLOAT16), nd_view(*indices, seq![n], ACL_INT32)],
            seq![n, dim],
            "aclnnGatherV2"@,
            "aclnnGatherV2"@,
        ),
        gains(
            old(ctx).state(),
            final(ctx).state(),
            out,
            gather_value(old(ctx).state().value(*table), vocab, dim, old(ctx).state().value(*indices), n),
        ),
{
    proof {
        lemma_one_dim(n);
    }
    let table_shape: Vec<i64> = vec![vocab, dim];
    let index_shape: Vec<i64> = vec![n];
    let shape: Vec<i64> = vec![n, dim];
    assert(table_shape@ =~= seq![vocab, dim]);
    assert(index_shape@ =~= seq![n]);
    assert(shape@ =~= seq![n, dim]);
    let inputs: Vec<AclTensor> = vec![AclTensor::fp16_nd(table, &table_shape), AclTensor::i32_nd(indices, &index_shape)];
    proof {
        let st = ctx.state();
        let ins = seq![nd_view(*table, seq![vocab, dim], ACL_FLOAT16), nd_view(*indices, seq![n], ACL_INT32)];
        assert(views(inputs@) =~= ins);
        assert(values(st, ins) =~= seq![fp16(st.value(*table), seq![vocab, dim]), nd(st.value(*indices), seq![n], ACL_INT32)]);
    }
    single(ctx, Entry::GatherV2 { dim: 0 }, Order::OutputsFirst, inputs, &shape, "aclnnGatherV2", "aclnnGatherV2")
}

/// The bytes of rows `[row_offset, row_offset + rows)` of a matrix with `cols`
/// columns.
pub open spec fn rows_value(buf: Seq<SymByte>, row_offset: i64, rows: i64, cols: i64) -> Seq<
    SymByte,
> {
    buf.subrange(row_offset * cols * 2, (row_offset + rows) * cols * 2)
}

/// The rows lie inside a buffer of `len` bytes.
pub open spec fn rows_inside(len: usize, row_offset: i64, rows: i64, cols: i64) -> bool {
    &&& row_offset >= 0
    &&& rows >= 0
    &&& cols >= 0
    &&& (row_offset + rows) * cols * 2 <= len
    &&& (row_offset + rows) * cols * 2 <= i64::MAX
}

/// The range of `buf` that holds the rows.
pub open spec fn rows_of(buf: DeviceBuffer, row_offset: i64, rows: i64, cols: i64) -> DeviceBuffer {
    DeviceBuffer {
        base: buf.base,
        offset: (buf.offset + row_offset * cols * 2) as usize,
        len: (rows * cols * 2) as usize,
    }
}

pub open spec fn take_rows_calls(
    issued: nat,
    buf: DeviceBuffer,
    row_offset: i64,
    rows: i64,
    cols: i64,
) -> Seq<Call> {
    let out = whole(issued, rows * cols * 2);
    seq![
        Call::Malloc { base: out.base, len: out.len },
        Call::Copy {
            dst: out,
            src: rows_of(buf, row_offset, rows, cols),
            op: "aclrtMemcpyAsync(take_rows)"@,
        },
    ]
}

/// Copy rows `[row_offset, row_offset + rows)` of a matrix with `cols` columns
/// out of `buf`.
pub fn take_rows_fp16(
    ctx: &mut AscendContext,
    buf: &DeviceBuffer,
    row_offset: i64,
    rows: i64,
    cols: i64,
) -> (out: DeviceBuffer)
    requires
        old(ctx).wf(),
        old(ctx).state().holds(*buf),
        rows_inside(buf.len, row_offset, rows, cols),
    ensures
        final(ctx).recorded(
            old(ctx),
            take_rows_calls(old(ctx).state().issued, *buf, row_offset, rows, cols),
        ),
        quiet(*old(ctx), *final(ctx)),
        gains(
            old(ctx).state(),
            final(ctx).state(),
            out,
            rows_value(old(ctx).state().value(*buf), row_offset, rows, cols),
        ),
{
    let ghost st = ctx.state();
    let ghost a = *ctx;
    proof {
        ctx.lemma_safe();
        lemma_rows(row_offset, rows, cols);
        match buf.base {
            Base::Fresh(id) => {
                assert(st.fresh.contains_key(id));
            },
            Base::Kept(id) => {
                assert(st.kept.contains_key(id));
            },
            Base::Pool(len) => {
                assert(st.pool.contains_key(len));
            },
            Base::Slot(id) => {
                assert(st.slots.contains_key(id));
            },
        }
    }
    let bytes: usize = (rows * cols * 2) as usize;
    let off: usize = (row_offset * cols * 2) as usize;
    let src = DeviceBuffer { base: buf.base, offset: buf.offset + off, len: bytes };
    let out = ctx.malloc(bytes);
    let ghost b = *ctx;
    proof {
        assert(src == rows_of(*buf, row_offset, rows, cols));
        assert(b.state().holds_whole(out));
        assert(b.state().content(buf.base) == st.content(buf.base));
    }
    ctx.copy_async(&out, &src, "aclrtMemcpyAsync(take_rows)");
    proof {
        let one = seq![Call::Malloc { base: out.base, len: bytes }];
        let two = seq![
            Call::Copy { dst: out, src, op: "aclrtMemcpyAsync(take_rows)"@ },
        ];
        lemma_recorded(a, b, *ctx, one, two);
        assert(one + two =~= take_rows_calls(st.issued, *buf, row_offset, rows, cols));
        lemma_quiet(a, *ctx, one + two);
        let taken = rows_value(st.value(*buf), row_offset, rows, cols);
        assert(b.state().value(src) =~= taken);
        lemma_write_whole(b.state(), out, taken);
        assert(ctx.state().fresh =~= st.fresh.insert(st.issued as usize, taken));
    }
    out
}

proof fn lemma_rows(row_offset: i64, rows: i64, cols: i64)
    requires
        row_offset >= 0,
        rows >= 0,
        cols >= 0,
        (row_offset + rows) * cols * 2 <= i64::MAX,
    ensures
        0 <= row_offset * cols,
        0 <= rows * cols,
        row_offset * cols * 2 + rows * cols * 2 == (row_offset + rows) * cols * 2,
        row_offset * cols * 2 <= i64::MAX,
        rows * cols * 2 <= i64::MAX,
{
    assert(0 <= row_offset * cols && 0 <= rows * cols && row_offset * cols * 2 + rows * cols * 2
        == (row_offset + rows) * cols * 2) by (nonlinear_arith)
        requires
            row_offset >= 0,
            rows >= 0,
            cols >= 0,
    ;
}

/// The bytes of columns `[start, start + cols)` of a matrix with `rows` rows of `width`
/// columns: those columns of each row, row after row.
pub open spec fn columns_value(
    buf: Seq<SymByte>,
    rows: i64,
    width: i64,
    start: i64,
    cols: i64,
) -> Seq<SymByte> {
    let line = cols * 2;
    Seq::new(
        (rows * line) as nat,
        |i: int| buf[(i / line * width + start) * 2 + i % line],
    )
}

/// Element `(r, c)` of the columns is element `(r, start + c)` of the matrix, byte by
/// byte.
pub proof fn lemma_column_element(
    buf: Seq<SymByte>,
    rows: i64,
    width: i64,
    start: i64,
    cols: i64,
    r: int,
    c: int,
    b: int,
)
    requires
        0 <= r < rows,
        0 <= c < cols,
        0 <= b < 2,
    ensures
        0 <= 2 * (r * cols + c) + b < rows * cols * 2,
        columns_value(buf, rows, width, start, cols).len() == rows * cols * 2,
        columns_value(buf, rows, width, start, cols)[2 * (r * cols + c) + b] == buf[2 * (r * width
            + start + c) + b],
{
    let line = cols * 2;
    let i = 2 * (r * cols + c) + b;
    assert(i == r * line + (2 * c + b) && rows * line == rows * cols * 2 && 0 <= i < rows * line)
        by (nonlinear_arith)
        requires
            i == 2 * (r * cols + c) + b,
            line == cols * 2,
            0 <= r < rows,
            0 <= c < cols,
            0 <= b < 2,
    ;
    vstd::arithmetic::div_mod::lemma_fundamental_div_mod_converse(i, line, r, 2 * c + b);
}

/// The columns lie inside a buffer of `len` bytes that holds the matrix.
pub open spec fn columns_inside(len: usize, rows: i64, width: i64, start: i64, cols: i64) -> bool {
    &&& rows >= 0
    &&& start >= 0
    &&& cols >= 0
    &&& start + cols <= width
    &&& rows * width * 2 <= len
    &&& rows * width * 2 <= i64::MAX
}

/// The part of row `r` of `buf` that holds the columns.
pub open spec fn columns_of(
    buf: DeviceBuffer,
    width: i64,
    start: i64,
    cols: i64,
    r: int,
) -> DeviceBuffer {
    DeviceBuffer {
        base: buf.base,
        offset: (buf.offset + (r * width + start) * 2) as usize,
        len: (cols * 2) as usize,
    }
}

pub open spec fn take_columns_calls(
    issued: nat,
    buf: DeviceBuffer,
    rows: i64,
    width: i64,
    start: i64,
    cols: i64,
) -> Seq<Call> {
    let out = whole(issued, rows * cols * 2);
    seq![Call::Malloc { base: out.base, len: out.len }] + Seq::new(
        rows as nat,
        |r: int|
            Call::Copy {
                dst: columns_of(out, cols, 0, cols, r),
                src: columns_of(buf, width, start, cols, r),
                op: "aclrtMemcpyAsync(take_rows)"@,
            },
    )
}

/// The columns of the first `done` rows, in an allocation for those of all rows.
spec fn columns_done(base: Base, taken: Seq<SymByte>, done: int) -> Seq<SymByte> {
    Seq::new(
        taken.len(),
        |i: int|
            if i < done {
                taken[i]
            } else {
                SymByte::Undefined { base, index: i }
            },
    )
}

proof fn lemma_columns(rows: i64, width: i64, start: i64, cols: i64)
    requires
        rows >= 0,
        start >= 0,
        cols >= 0,
        start + cols <= width,
        rows * width * 2 <= i64::MAX,
    ensures
        0 <= rows * cols,
        rows * (cols * 2) == rows * cols * 2,
        rows * cols * 2 <= rows * width * 2,
{
    assert(0 <= rows * cols && rows * (cols * 2) == rows * cols * 2 && rows * cols * 2 <= rows
        * width * 2) by (nonlinear_arith)
        requires
            rows >= 0,
            0 <= cols <= width,
    ;
}

proof fn lemma_columns_row(rows: i64, width: i64, start: i64, cols: i64, r: i64)
    requires
        0 <= r < rows,
        start >= 0,
        cols >= 0,
        start + cols <= width,
        rows * width * 2 <= i64::MAX,
    ensures
        0 <= r * width,
        0 <= r * cols,
        (r * width + start) * 2 + cols * 2 <= rows * width * 2,
        r * cols * 2 + cols * 2 <= rows * cols * 2,
        (r + 1) * (cols * 2) == r * cols * 2 + cols * 2,
        width <= i64::MAX - start,
{
    assert(0 <= r * width && 0 <= r * cols && (r * width + start) * 2 + cols * 2 <= rows * width
        * 2 && r * cols * 2 + cols * 2 <= rows * cols * 2 && (r + 1) * (cols * 2) == r * cols * 2
        + cols * 2) by (nonlinear_arith)
        requires
            0 <= r < rows,
            start >= 0,
            cols >= 0,
            start + cols <= width,
    ;
    assert(width <= rows * width) by (nonlinear_arith)
        requires
            rows >= 1,
            width >= 0,
    ;
}

/// One more row of columns has been copied.
proof fn lemma_columns_step(
    base: Base,
    buf: Seq<SymByte>,
    rows: i64,
    width: i64,
    start: i64,
    cols: i64,
    r: i64,
)
    requires
        0 <= r < rows,
        start >= 0,
        cols >= 0,
        start + cols <= width,
        rows * width * 2 <= i64::MAX,
        rows * width * 2 <= buf.len(),
    ensures
        ({
            let taken = columns_value(buf, rows, width, start, cols);
            splice(
                columns_done(base, taken, r * cols * 2),
                r * cols * 2,
                buf.subrange((r * width + start) * 2, (r * width + start) * 2 + cols * 2),
            ) == columns_done(base, taken, (r + 1) * cols * 2)
        }),
{
    let taken = columns_value(buf, rows, width, start, cols);
    let line = cols * 2;
    let at = r * cols * 2;
    lemma_columns(rows, width, start, cols);
    lemma_columns_row(rows, width, start, cols, r);
    assert((r + 1) * cols * 2 == at + line) by (nonlinear_arith)
        requires
            at == r * cols * 2,
            line == cols * 2,
    ;
    let part = buf.subrange((r * width + start) * 2, (r * width + start) * 2 + line);
    assert forall|i: int| at <= i < at + line implies part[i - at] == #[trigger] taken[i] by {
        assert(i == line * r + (i - at)) by (nonlinear_arith)
            requires
                at == r * cols * 2,
                line == cols * 2,
        ;
        vstd::arithmetic::div_mod::lemma_fundamental_div_mod_converse(i, line, r as int, i - at);
    }
    assert(splice(columns_done(base, taken, at), at, part) =~= columns_done(
        base,
        taken,
        at + line,
    ));
}

/// Copy columns `[start, start + cols)` of a matrix with `rows` rows of `width` columns
/// out of `buf`, row by row. Parts of a fused projection lie side by side in each row.
pub fn take_columns_fp16(
    ctx: &mut AscendContext,
    buf: &DeviceBuffer,
    rows: i64,
    width: i64,
    start: i64,
    cols: i64,
) -> (out: DeviceBuffer)
    requires
        old(ctx).wf(),
        old(ctx).state().holds(*buf),
        columns_inside(buf.len, rows, width, start, cols),
    ensures
        final(ctx).recorded(
            old(ctx),
            take_columns_calls(old(ctx).state().issued, *buf, rows, width, start, cols),
        ),
        quiet(*old(ctx), *final(ctx)),
        out.len == rows * cols * 2,
        gains(
            old(ctx).state(),
            final(ctx).state(),
            out,
            columns_value(old(ctx).state().value(*buf), rows, width, start, cols),
        ),
{
    let ghost st = ctx.state();
    let ghost c0 = *ctx;
    let ghost all = take_columns_calls(st.issued, *buf, rows, width, start, cols);
    let ghost taken = columns_value(st.value(*buf), rows, width, start, cols);
    proof {
        ctx.lemma_safe();
        lemma_columns(rows, width, start, cols);
        match buf.base {
            Base::Fresh(id) => {
                assert(st.fresh.contains_key(id));
            },
            Base::Kept(id) => {
                assert(st.kept.contains_key(id));
            },
            Base::Pool(len) => {
                assert(st.pool.contains_key(len));
            },
            Base::Slot(id) => {
                assert(st.slots.contains_key(id));
            },
        }
        lemma_recorded_nothing(c0);
        assert(all.take(0) =~= Seq::<Call>::empty());
    }
    let bytes: usize = (rows * cols * 2) as usize;
    let out = ctx.malloc(bytes);
    let ghost id = st.issued as usize;
    proof {
        lemma_recorded_next(c0, c0, *ctx, all, 0);
        assert(undefined(out.base, bytes as nat) =~= columns_done(out.base, taken, 0));
        assert(ctx.state() == DeviceState {
            fresh: st.fresh.insert(id, columns_done(out.base, taken, 0)),
            issued: st.issued + 1,
            ..st
        });
    }
    let mut r: i64 = 0;
    while r < rows
        invariant
            0 <= r <= rows,
            st == c0.state(),
            st.sane(),
            st.holds(*buf),
            columns_inside(buf.len, rows, width, start, cols),
            buf.offset + buf.len <= usize::MAX,
            all == take_columns_calls(st.issued, *buf, rows, width, start, cols),
            taken == columns_value(st.value(*buf), rows, width, start, cols),
            taken.len() == rows * cols * 2,
            id == st.issued,
            out == whole(st.issued, rows * cols * 2),
            out.base == Base::Fresh(id),
            out.len == rows * cols * 2,
            ctx.wf(),
            ctx.recorded(&c0, all.take(r + 1)),
            ctx.state() == (DeviceState {
                fresh: st.fresh.insert(id, columns_done(out.base, taken, r * cols * 2)),
                dirty: ctx.state().dirty,
                issued: st.issued + 1,
                ..st
            }),
            forall|b: Base| #[trigger]
                ctx.state().dirty.contains(b) ==> st.dirty.contains(b) || b == out.base,
        decreases rows - r,
    {
        let ghost before = *ctx;
        proof {
            lemma_columns(rows, width, start, cols);
            lemma_columns_row(rows, width, start, cols, r);
            lemma_columns_step(out.base, st.value(*buf), rows, width, start, cols, r);
        }
        let from: usize = ((r * width + start) * 2) as usize;
        let to: usize = (r * cols * 2) as usize;
        let line: usize = (cols * 2) as usize;
        let src = DeviceBuffer { base: buf.base, offset: buf.offset + from, len: line };
        let dst = DeviceBuffer { base: out.base, offset: to, len: line };
        proof {
            assert(src == columns_of(*buf, width, start, cols, r as int));
            assert(dst == columns_of(out, cols, 0, cols, r as int)) by {
                assert((r * cols + 0) * 2 == r * cols * 2);
            }
            assert(buf.base != out.base);
            assert(before.state().content(buf.base) == st.content(buf.base));
            assert(before.state().value(src) =~= st.value(*buf).subrange(
                (r * width + start) * 2,
                (r * width + start) * 2 + cols * 2,
            ));
        }
        ctx.copy_async(&dst, &src, "aclrtMemcpyAsync(take_rows)");
        proof {
            assert(all[r + 1] == Call::Copy { dst, src, op: "aclrtMemcpyAsync(take_rows)"@ });
            lemma_recorded_next(c0, before, *ctx, all, r + 1);
            assert(ctx.state().fresh =~= st.fresh.insert(
                id,
                columns_done(out.base, taken, (r + 1) * cols * 2),
            ));
        }
        r = r + 1;
    }
    proof {
        assert(all.take(rows + 1) =~= all);
        lemma_quiet(c0, *ctx, all);
        assert(columns_done(out.base, taken, rows * cols * 2) =~= taken);
    }
    out
}

/// The shapes of the parts.
pub open spec fn shapes_of(shapes: Seq<Vec<i64>>) -> Seq<Seq<i64>> {
    Seq::new(shapes.len(), |i: int| shapes[i]@)
}

/// Descriptors over the parts.
pub open spec fn part_views(parts: Seq<DeviceBuffer>, shapes: Seq<Seq<i64>>) -> Seq<TensorView> {
    Seq::new(parts.len(), |i: int| nd_view(parts[i], shapes[i], ACL_FLOAT16))
}

/// What [`cat_fp16`] computes.
pub open spec fn cat_value(
    parts: Seq<Seq<SymByte>>,
    shapes: Seq<Seq<i64>>,
    dim: i64,
    out_shape: Seq<i64>,
) -> Seq<SymByte> {
    result(
        (Entry::Cat { dim }),
        Seq::new(parts.len(), |i: int| fp16(parts[i], shapes[i])),
        out_shape,
    )
}

/// The content of the parts.
pub open spec fn contents(st: DeviceState, parts: Seq<DeviceBuffer>) -> Seq<Seq<SymByte>> {
    Seq::new(parts.len(), |i: int| st.value(parts[i]))
}

/// Concatenate tensors along `dim`. The kernel takes its inputs as one list, and
/// destroying the list destroys their descriptors with it.
pub fn cat_fp16(
    ctx: &mut AscendContext,
    parts: &Vec<DeviceBuffer>,
    shapes: &Vec<Vec<i64>>,
    dim: i64,
    out_shape: &[i64],
) -> (out: DeviceBuffer)
    requires
        old(ctx).wf(),
        parts@.len() == shapes@.len(),
        forall|i: int|
            0 <= i < parts@.len() ==> is_fp16(
                old(ctx).state(),
                #[trigger] parts@[i],
                shapes@[i]@,
            ),
        shape_fits(out_shape@),
    ensures
        ran(
            *old(ctx),
            *final(ctx),
            out,
            Entry::Cat { dim },
            Order::OutputsFirst,
            part_views(parts@, shapes_of(shapes@)),
            out_shape@,
            "aclnnCat"@,
            "aclnnCat"@,
        ),
        gains(
            old(ctx).state(),
            final(ctx).state(),
            out,
            cat_value(
                contents(old(ctx).state(), parts@),
                shapes_of(shapes@),
                dim,
                out_shape@,
            ),
        ),
{
    let ghost st = ctx.state();
    let mut inputs: Vec<AclTensor> = Vec::new();
    let mut i: usize = 0;
    let ghost all = part_views(parts@, shapes_of(shapes@));
    while i < parts.len()
        invariant
            i <= parts@.len(),
            parts@.len() == shapes@.len(),
            all == part_views(parts@, shapes_of(shapes@)),
            forall|j: int|
                0 <= j < parts@.len() ==> is_fp16(st, #[trigger] parts@[j], shapes@[j]@),
            inputs@.len() == i,
            forall|j: int|
                0 <= j < i ==> (#[trigger] inputs@[j])@ == all[j] && covered(inputs@[j]@),
        decreases parts@.len() - i,
    {
        assert(is_fp16(st, parts@[i as int], shapes@[i as int]@));
        inputs.push(AclTensor::fp16_nd(&parts[i], &shapes[i]));
        i = i + 1;
    }
    proof {
        assert(views(inputs@) =~= all);
        assert forall|j: int| 0 <= j < inputs@.len() implies st.holds(
            (#[trigger] inputs@[j])@.buffer,
        ) && covered(inputs@[j]@) by {
            assert(is_fp16(st, parts@[j], shapes@[j]@));
        }
        assert(values(st, all) =~= Seq::new(
            parts@.len(),
            |j: int| fp16(contents(st, parts@)[j], shapes_of(shapes@)[j]),
        ));
    }
    single(ctx, Entry::Cat { dim }, Order::OutputsFirst, inputs, out_shape, "aclnnCat", "aclnnCat")
}

/// The bytes of `rows` zero indices.
pub open spec fn zero_indices(rows: i64) -> Seq<u8> {
    Seq::new((rows * 4) as nat, |i: int| 0u8)
}

/// What [`row_replicate_fp16`] computes: the one row gathered `rows` times.
pub open spec fn replicate_value(row: Seq<SymByte>, rows: i64, d: i64) -> Seq<SymByte> {
    result(
        (Entry::GatherV2 { dim: 0 }),
        seq![
            fp16(row, seq![1i64, d]),
            nd(literal(zero_indices(rows)), seq![rows], ACL_INT32),
        ],
        seq![rows, d],
    )
}

pub open spec fn replicate_calls(issued: nat, row: DeviceBuffer, rows: i64, d: i64) -> Seq<Call> {
    let index = whole(issued, rows * 4);
    upload_calls(index, zero_indices(rows)) + kernel_calls(
        issued + 1,
        Entry::GatherV2 { dim: 0 },
        Order::OutputsFirst,
        seq![
            nd_view(row, seq![1i64, d], ACL_FLOAT16),
            nd_view(index, seq![rows], ACL_INT32),
        ],
        fp16_out(seq![rows, d]),
        "aclnnGatherV2(replicate)"@,
        "aclnnGatherV2(replicate)"@,
    ) + seq![Call::Release { base: Base::Fresh(issued as usize) }]
}

/// Replicate one row of `d` words into `[rows, d]`, for kernels that do not take
/// a broadcast operand.
pub fn row_replicate_fp16(ctx: &mut AscendContext, row: &DeviceBuffer, rows: i64, d: i64) -> (out:
    DeviceBuffer)
    requires
        old(ctx).wf(),
        fits(rows, d),
        old(ctx).state().holds(*row),
        row.len == d * 2,
    ensures
        final(ctx).recorded(
            old(ctx),
            replicate_calls(old(ctx).state().issued, *row, rows, d),
        ),
        out.len == rows * d * 2,
        gains(
            old(ctx).state(),
            final(ctx).state(),
            out,
            replicate_value(old(ctx).state().value(*row), rows, d),
        ),
{
    let ghost c0 = *ctx;
    let ghost s0 = ctx.state();
    proof {
        ctx.lemma_safe();
        lemma_fits(rows, d);
        lemma_one_dim(rows);
        lemma_two_dims(1, d);
        assert(1 * d == d);
    }
    let len: usize = rows as usize * 4;
    let zeros = zero_bytes(len);
    assert(zeros@ =~= zero_indices(rows));
    let index = upload(ctx, zeros);
    let ghost c1 = *ctx;
    let ghost s1 = ctx.state();
    proof {
        ctx.lemma_safe();
        lemma_gains(s0, s1, index, literal(zero_indices(rows)));
    }
    let row_shape: Vec<i64> = vec![1, d];
    let index_shape: Vec<i64> = vec![rows];
    let shape: Vec<i64> = vec![rows, d];
    assert(row_shape@ =~= seq![1i64, d]);
    assert(index_shape@ =~= seq![rows]);
    assert(shape@ =~= seq![rows, d]);
    let inputs: Vec<AclTensor> = vec![
        AclTensor::fp16_nd(row, &row_shape),
        AclTensor::i32_nd(&index, &index_shape),
    ];
    let ghost ins = seq![
        nd_view(*row, seq![1i64, d], ACL_FLOAT16),
        nd_view(index, seq![rows], ACL_INT32),
    ];
    proof {
        assert(views(inputs@) =~= ins);
        assert(values(s1, ins) =~= seq![
            fp16(s0.value(*row), seq![1i64, d]),
            nd(literal(zero_indices(rows)), seq![rows], ACL_INT32),
        ]);
    }
    let out = single(
        ctx,
        Entry::GatherV2 { dim: 0 },
        Order::OutputsFirst,
        inputs,
        &shape,
        "aclnnGatherV2(replicate)",
        "aclnnGatherV2(replicate)",
    );
    let ghost c2 = *ctx;
    proof {
        lemma_releasable(s0, ctx.state(), s0.issued as usize);
    }
    ctx.release(index);
    proof {
        let up = upload_calls(index, zero_indices(rows));
        let run_calls = kernel_calls(
            s1.issued,
            Entry::GatherV2 { dim: 0 },
            Order::OutputsFirst,
            ins,
            fp16_out(seq![rows, d]),
            "aclnnGatherV2(replicate)"@,
            "aclnnGatherV2(replicate)"@,
        );
        lemma_recorded(c0, c1, c2, up, run_calls);
        lemma_recorded(
            c0,
            c2,
            *ctx,
            up + run_calls,
            seq![Call::Release { base: Base::Fresh(s0.issued as usize) }],
        );
        match out.base {
            Base::Fresh(id) => {
                assert(ctx.state().fresh =~= s0.fresh.insert(
                    id,
                    replicate_value(s0.value(*row), rows, d),
                ));
            },
            _ => {},
        }
    }
    out
}

} // verus!
