//! How the ways of asking the model relate.

use vstd::prelude::*;

use crate::encode::{index_bytes, listed};
use crate::executor::frame::{lemma_owns, owns};
use crate::executor::laws::lemma_cat2;
use crate::ops::laws::{lemma_gathered_row, lemma_index_word};
use crate::ops::result;
use crate::runtime::denoise::{
    flow, lemma_flow_same, style_values, ActionWeights, PrefixValues, StepShape, StyleValues,
};
use crate::runtime::prefix::{prefix_value, token_value};
use crate::runtime::prepare::{all_made_styles, lemma_made, styles_fit};
use crate::runtime::styles::{all_style_items, sized, StyleWeights, Styles, TimeBuffer};
use crate::semantics::{literal, DeviceState, SymByte};
use crate::tensor::lemma_two_dims;

verus! {

/// Preparing the styles of all steps first and then running the flow with them gives
/// what running the flow from the time embeddings gives: `before` is the state in which
/// the styles are prepared, `after` the one they are left in.
pub proof fn lemma_prepared_flow(
    w: StyleWeights,
    stack: ActionWeights,
    styles: Seq<Styles>,
    times: Seq<TimeBuffer>,
    before: DeviceState,
    after: DeviceState,
    noise: Seq<SymByte>,
    prefix: PrefixValues,
    shape: StepShape,
    max_pos: usize,
    dt: u32,
)
    requires
        before.sane(),
        styles.len() == times.len(),
        forall|i: int| 0 <= i < times.len() ==> sized(w, #[trigger] styles[i], times[i].rows),
        forall|i: int|
            0 <= i < times.len() ==> styles_fit(w, (#[trigger] times[i]).rows, stack.width()),
        owns(before, after, all_style_items(w, styles, before, times, times.len())),
        stack.body_ready(before, shape),
    ensures
        flow(
            stack,
            after,
            noise,
            style_values(after, styles),
            prefix,
            shape,
            max_pos,
            dt,
            times.len(),
        ) == flow(
            stack,
            before,
            noise,
            all_made_styles(w, before, times),
            prefix,
            shape,
            max_pos,
            dt,
            times.len(),
        ),
{
    lemma_made(w, styles, before, after, times, stack.width());
    lemma_owns(before, after, all_style_items(w, styles, before, times, times.len()));
    lemma_flow_same(
        stack,
        before,
        after,
        noise,
        all_made_styles(w, before, times),
        prefix,
        shape,
        max_pos,
        dt,
        times.len(),
    );
}

/// Running all steps is running them one after the other: the flow of one more step is
/// that step on what the flow before it gives, and the flow of no step is its start.
pub proof fn lemma_flow_steps(
    stack: ActionWeights,
    st: DeviceState,
    noise: Seq<SymByte>,
    styles: Seq<StyleValues>,
    prefix: PrefixValues,
    shape: StepShape,
    max_pos: usize,
    dt: u32,
    n: nat,
)
    ensures
        flow(stack, st, noise, styles, prefix, shape, max_pos, dt, 0) == noise,
        flow(stack, st, noise, styles, prefix, shape, max_pos, dt, n + 1) == stack.step(
            st,
            flow(stack, st, noise, styles, prefix, shape, max_pos, dt, n),
            styles[n as int],
            prefix,
            shape,
            max_pos,
            dt,
        ),
{
}

/// The prefix is the vision rows and then, row by row, the embeddings of the token ids.
pub proof fn lemma_prefix_rows(
    vision: Seq<SymByte>,
    rows: i64,
    table: Seq<SymByte>,
    vocab: i64,
    width: i64,
    ids: Seq<u32>,
)
    requires
        0 <= rows,
        0 <= width,
        rows + ids.len() <= i64::MAX,
        vision.len() == rows * width * 2,
        forall|i: int| 0 <= i < ids.len() ==> #[trigger] ids[i] < vocab && ids[i] <= i32::MAX,
    ensures
        ({
            let prefix = prefix_value(vision, rows, table, vocab, width, ids);
            &&& prefix.len() == (rows + ids.len()) * width * 2
            &&& prefix.take(rows * width * 2) == vision
            &&& forall|i: int, c: int|
                0 <= i < ids.len() && 0 <= c < width * 2 ==> prefix[(rows + i) * (width * 2) + c]
                    == #[trigger] table[ids[i] * (width * 2) + c]
        }),
{
    let n = ids.len() as i64;
    let tokens = token_value(table, vocab, width, ids);
    let index = literal(index_bytes(ids.len(), listed(ids)));
    assert(tokens.len() == n * width * 2) by {
        reveal(result);
        lemma_two_dims(n, width);
        assert(0 <= n * width) by (nonlinear_arith)
            requires
                0 <= n,
                0 <= width,
        ;
    }
    lemma_cat2(vision, rows, tokens, n, width);
    let prefix = prefix_value(vision, rows, table, vocab, width, ids);
    assert((rows + n) * width * 2 == rows * width * 2 + n * width * 2) by (nonlinear_arith);
    assert(prefix.take(rows * width * 2) =~= vision);
    assert forall|i: int, c: int| 0 <= i < ids.len() && 0 <= c < width * 2 implies prefix[(rows + i)
        * (width * 2) + c] == #[trigger] table[ids[i] * (width * 2) + c] by {
        assert(ids[i] < vocab && ids[i] <= i32::MAX);
        lemma_index_word(ids.len(), listed(ids), i);
        lemma_gathered_row(table, vocab, width, index, n, i, ids[i] as int, c);
        assert((rows + i) * (width * 2) + c == rows * width * 2 + (i * (width * 2) + c))
            by (nonlinear_arith);
        assert(prefix[rows * width * 2 + (i * (width * 2) + c)] == tokens[i * (width * 2) + c]);
    }
}

} // verus!
