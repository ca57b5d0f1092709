//! Flow steps of the action expert.

use vstd::prelude::*;

use crate::backend::AscendBackend;
use crate::cache::stable;
use crate::device::{Base, DeviceBuffer};
use crate::executor::action::{
    action_layer, adaptive_value, euler_mul, euler_mul_value, is_rows, is_style, prefix_rows,
    prefix_there, ActionBuffers, ActionOperands, ActionValues, Start,
};
use crate::executor::attention::AttentionShape;
use crate::executor::caches::{caches_kept, AscendCaches};
use crate::executor::frame::{
    drop_temp, is_item, item_id, lemma_dropped_stable, lemma_keeps_then, lemma_owns,
    lemma_owns_drop, lemma_owns_one, lemma_owns_then, lemma_settled, owns, Item,
};
use crate::ops::matmul::{aligned_rows, lemma_aligned};
use crate::ops::rows::rows_value;
use crate::runtime::prefix::{Prefix, PrefixBuffers};
use crate::runtime::styles::{
    lemma_linear_same, linear, styles_of, LinearBuffers, StyleBuffers, Styles,
};
use crate::semantics::{
    delivers, is_lasting, keeps, lemma_delivers, lemma_gains, lemma_yields, DeviceState, SymByte,
};
use crate::tensor::{fits, lemma_fits, lemma_fits_smaller};

verus! {

/// The weights of the action expert.
#[derive(Debug)]
pub struct ActionStack {
    pub input: LinearBuffers,
    /// Rows of the weight that the state goes through.
    pub in_width: i64,
    pub layers: Vec<ActionBuffers>,
    pub output: LinearBuffers,
}

/// The style of the norm that follows layer `i`: that of the next layer, or the
/// last.
pub open spec fn next_style(styles: Styles, depth: nat, i: int) -> DeviceBuffer {
    if i + 1 < depth {
        styles.attention[i + 1]
    } else {
        styles.last
    }
}

/// What layer `i` works on besides its weights and its input.
pub open spec fn step_operands(
    start: Start,
    styles: Styles,
    prefix: Prefix,
    depth: nat,
    i: int,
) -> ActionOperands {
    ActionOperands {
        start,
        mlp_style: styles.mlp[i],
        next_style: next_style(styles, depth, i),
        prefix_k: prefix.keys[i],
        prefix_v: prefix.values[i],
    }
}

/// The operands of layer `i` where it starts from its own style.
pub open spec fn styled_operands(
    styles: Styles,
    prefix: Prefix,
    depth: nat,
    i: int,
) -> ActionOperands {
    step_operands(Start::Style(styles.attention[i]), styles, prefix, depth, i)
}

/// What buffers hold.
pub open spec fn values_of(st: DeviceState, bufs: Seq<DeviceBuffer>) -> Seq<Seq<SymByte>> {
    Seq::new(bufs.len(), |i: int| st.value(bufs[i]))
}

/// What the styles of a step hold.
pub struct StyleValues {
    pub attention: Seq<Seq<SymByte>>,
    pub mlp: Seq<Seq<SymByte>>,
    pub last: Seq<SymByte>,
}

/// What a prefix holds: keys, values and the number of rows of each layer.
pub struct PrefixValues {
    pub keys: Seq<Seq<SymByte>>,
    pub values: Seq<Seq<SymByte>>,
    pub rows: Seq<i64>,
}

impl Styles {
    pub open spec fn values(self, st: DeviceState) -> StyleValues {
        StyleValues {
            attention: values_of(st, self.attention),
            mlp: values_of(st, self.mlp),
            last: st.value(self.last),
        }
    }
}

impl Prefix {
    pub open spec fn values(self, st: DeviceState, kv_d: i64) -> PrefixValues {
        PrefixValues {
            keys: values_of(st, self.keys),
            values: values_of(st, self.values),
            rows: Seq::new(self.keys.len(), |i: int| prefix_rows(self.keys[i], kv_d)),
        }
    }
}

/// What the operands of layer `i` hold.
pub open spec fn step_values(
    styles: StyleValues,
    prefix: PrefixValues,
    depth: nat,
    i: int,
) -> ActionValues {
    ActionValues {
        mlp_style: styles.mlp[i],
        next_style: if i + 1 < depth {
            styles.attention[i + 1]
        } else {
            styles.last
        },
        prefix_k: prefix.keys[i],
        prefix_v: prefix.values[i],
        prefix_tokens: prefix.rows[i],
    }
}

/// The operands of a layer hold what styles and prefix hold.
proof fn lemma_step_values(
    st: DeviceState,
    start: Start,
    styles: Styles,
    prefix: Prefix,
    kv_d: i64,
    depth: nat,
    i: int,
)
    requires
        0 <= i < depth,
        styles.attention.len() == depth,
        styles.mlp.len() == depth,
        prefix.keys.len() == depth,
        prefix.values.len() == depth,
    ensures
        step_operands(start, styles, prefix, depth, i).values(st, kv_d) == step_values(
            styles.values(st),
            prefix.values(st, kv_d),
            depth,
            i,
        ),
{
}

/// Sizes of a flow step.
#[derive(Debug, Clone, Copy, PartialEq, Eq, Structural)]
pub struct StepShape {
    pub attention: AttentionShape,
    /// Columns of the state.
    pub state_width: i64,
    /// A single-precision pattern.
    pub eps: u32,
}

/// What an [`ActionStack`] says.
pub struct ActionWeights {
    pub input: LinearBuffers,
    pub in_width: i64,
    pub layers: Seq<ActionBuffers>,
    pub output: LinearBuffers,
}

impl View for ActionStack {
    type V = ActionWeights;

    open spec fn view(&self) -> ActionWeights {
        ActionWeights {
            input: self.input,
            in_width: self.in_width,
            layers: self.layers@,
            output: self.output,
        }
    }
}

impl ActionWeights {
    /// Width of the hidden state.
    pub open spec fn width(self) -> i64 {
        self.input.out_width
    }

    /// Everything but the state is there and fits together.
    pub open spec fn ready(
        self,
        st: DeviceState,
        styles: Styles,
        prefix: Prefix,
        shape: StepShape,
    ) -> bool {
        let depth = self.layers.len();
        let rows = shape.attention.tokens;
        &&& depth > 0
        &&& styles.attention.len() == depth
        &&& styles.mlp.len() == depth
        &&& prefix.keys.len() == depth
        &&& prefix.values.len() == depth
        &&& self.in_width == shape.state_width
        &&& self.input.ready(st, rows, self.in_width)
        &&& is_style(st, styles.attention[0], self.width())
        &&& forall|i: int|
            0 <= i < depth ==> (#[trigger] self.layers[i]).weights_ready(
                st,
                styled_operands(styles, prefix, depth, i),
                shape.attention,
                self.width(),
            )
        &&& self.output.ready(st, rows, self.width())
        &&& self.output.out_width == shape.state_width
    }

    /// The weights are there and fit together.
    pub open spec fn body_ready(self, st: DeviceState, shape: StepShape) -> bool {
        let rows = shape.attention.tokens;
        &&& self.layers.len() > 0
        &&& self.in_width == shape.state_width
        &&& self.input.ready(st, rows, self.in_width)
        &&& forall|i: int|
            0 <= i < self.layers.len() ==> (#[trigger] self.layers[i]).body_ready(
                st,
                shape.attention,
                self.width(),
            )
        &&& self.output.ready(st, rows, self.width())
        &&& self.output.out_width == shape.state_width
    }

    /// The rows that the first layer starts from.
    pub open spec fn first_norm(
        self,
        st: DeviceState,
        state: Seq<SymByte>,
        styles: StyleValues,
        shape: StepShape,
    ) -> Seq<SymByte> {
        adaptive_value(
            self.input.value(st, state, shape.attention.tokens, shape.state_width),
            styles.attention[0],
            shape.attention.tokens,
            self.width(),
            shape.eps,
        )
    }

    /// The normalized rows after the first `n` layers.
    pub open spec fn norms(
        self,
        st: DeviceState,
        state: Seq<SymByte>,
        styles: StyleValues,
        prefix: PrefixValues,
        shape: StepShape,
        max_pos: usize,
        n: nat,
    ) -> Seq<SymByte>
        decreases n,
    {
        if n == 0 {
            self.first_norm(st, state, styles, shape)
        } else {
            self.layers[n - 1].next(
                st,
                self.norms(st, state, styles, prefix, shape, max_pos, (n - 1) as nat),
                step_values(styles, prefix, self.layers.len(), n - 1),
                shape.attention,
                self.width(),
                shape.eps,
                max_pos,
            )
        }
    }

    /// The velocity of the flow.
    pub open spec fn velocity(
        self,
        st: DeviceState,
        state: Seq<SymByte>,
        styles: StyleValues,
        prefix: PrefixValues,
        shape: StepShape,
        max_pos: usize,
    ) -> Seq<SymByte> {
        self.output.value(
            st,
            self.norms(st, state, styles, prefix, shape, max_pos, self.layers.len()),
            shape.attention.tokens,
            self.width(),
        )
    }

    /// The state after a step of size `dt`.
    pub open spec fn step(
        self,
        st: DeviceState,
        state: Seq<SymByte>,
        styles: StyleValues,
        prefix: PrefixValues,
        shape: StepShape,
        max_pos: usize,
        dt: u32,
    ) -> Seq<SymByte> {
        euler_mul_value(
            state,
            self.velocity(st, state, styles, prefix, shape, max_pos),
            dt,
            shape.attention.tokens,
            self.output.out_width,
        )
    }
}

/// Styles for every layer are there.
pub open spec fn styles_there(st: DeviceState, styles: Styles, depth: nat, width: i64) -> bool {
    &&& styles.attention.len() == depth
    &&& styles.mlp.len() == depth
    &&& forall|i: int|
        0 <= i < depth ==> is_style(st, #[trigger] styles.attention[i], width)
    &&& forall|i: int| 0 <= i < depth ==> is_style(st, #[trigger] styles.mlp[i], width)
    &&& is_style(st, styles.last, width)
}

/// Keys and values for every layer are there.
pub open spec fn layers_there(
    st: DeviceState,
    prefix: Prefix,
    depth: nat,
    shape: AttentionShape,
) -> bool {
    &&& prefix.keys.len() == depth
    &&& prefix.values.len() == depth
    &&& forall|i: int|
        0 <= i < depth ==> prefix_there(
            st,
            #[trigger] prefix.keys[i],
            prefix.values[i],
            shape,
        )
}

/// Weights, styles and prefix make a step.
pub proof fn lemma_step_ready(
    stack: ActionWeights,
    st: DeviceState,
    styles: Styles,
    prefix: Prefix,
    shape: StepShape,
)
    requires
        stack.body_ready(st, shape),
        styles_there(st, styles, stack.layers.len(), stack.width()),
        layers_there(st, prefix, stack.layers.len(), shape.attention),
    ensures
        stack.ready(st, styles, prefix, shape),
{
    let depth = stack.layers.len();
    assert forall|i: int| 0 <= i < depth implies (#[trigger] stack.layers[i]).weights_ready(
        st,
        styled_operands(styles, prefix, depth, i),
        shape.attention,
        stack.width(),
    ) by {
        assert(stack.layers[i].body_ready(st, shape.attention, stack.width()));
        assert(prefix_there(st, prefix.keys[i], prefix.values[i], shape.attention));
        assert(is_style(st, styles.mlp[i], stack.width()));
        if i + 1 < depth {
            assert(is_style(st, styles.attention[i + 1], stack.width()));
        }
    }
    assert(is_style(st, styles.attention[0], stack.width()));
}

/// Styles are there in a later state too, and hold what they did.
pub proof fn lemma_styles_there(
    before: DeviceState,
    after: DeviceState,
    styles: Styles,
    depth: nat,
    width: i64,
)
    requires
        styles_there(before, styles, depth, width),
        forall|b: DeviceBuffer| before.holds(b) && is_lasting(b) ==> #[trigger] after.holds(b),
        forall|b: DeviceBuffer|
            before.holds(b) && is_lasting(b) ==> #[trigger] after.value(b) == before.value(b),
    ensures
        styles_there(after, styles, depth, width),
        styles.values(after) == styles.values(before),
{
    assert forall|i: int| 0 <= i < depth implies is_style(
        after,
        #[trigger] styles.attention[i],
        width,
    ) && after.value(styles.attention[i]) == before.value(styles.attention[i]) by {
        assert(is_style(before, styles.attention[i], width));
    }
    assert forall|i: int| 0 <= i < depth implies is_style(after, #[trigger] styles.mlp[i], width)
        && after.value(styles.mlp[i]) == before.value(styles.mlp[i]) by {
        assert(is_style(before, styles.mlp[i], width));
    }
    assert(values_of(after, styles.attention) =~= values_of(before, styles.attention));
    assert(values_of(after, styles.mlp) =~= values_of(before, styles.mlp));
}

/// Keys and values are there in a later state too, and hold what they did.
pub proof fn lemma_layers_there(
    before: DeviceState,
    after: DeviceState,
    prefix: Prefix,
    depth: nat,
    shape: AttentionShape,
)
    requires
        layers_there(before, prefix, depth, shape),
        forall|b: DeviceBuffer| before.holds(b) && is_lasting(b) ==> #[trigger] after.holds(b),
        forall|b: DeviceBuffer|
            before.holds(b) && is_lasting(b) ==> #[trigger] after.value(b) == before.value(b),
    ensures
        layers_there(after, prefix, depth, shape),
        prefix.values(after, shape.kv_d()) == prefix.values(before, shape.kv_d()),
{
    assert forall|i: int| 0 <= i < depth implies prefix_there(
        after,
        #[trigger] prefix.keys[i],
        prefix.values[i],
        shape,
    ) && after.value(prefix.keys[i]) == before.value(prefix.keys[i]) && after.value(
        prefix.values[i],
    ) == before.value(prefix.values[i]) by {
        assert(prefix_there(before, prefix.keys[i], prefix.values[i], shape));
    }
    assert(values_of(after, prefix.keys) =~= values_of(before, prefix.keys));
    assert forall|i: int| 0 <= i < depth implies after.value(#[trigger] prefix.values[i])
        == before.value(prefix.values[i]) by {
        assert(prefix_there(after, prefix.keys[i], prefix.values[i], shape));
    }
    assert(values_of(after, prefix.values) =~= values_of(before, prefix.values));
}

/// The weights are there in a later state too.
pub proof fn lemma_body_same(
    stack: ActionWeights,
    before: DeviceState,
    after: DeviceState,
    shape: StepShape,
)
    requires
        before.sane(),
        keeps(before, after),
        stack.body_ready(before, shape),
        forall|b: DeviceBuffer| before.holds(b) && is_lasting(b) ==> #[trigger] after.holds(b),
        forall|b: DeviceBuffer|
            before.holds(b) && is_lasting(b) ==> #[trigger] after.value(b) == before.value(b),
    ensures
        stack.body_ready(after, shape),
{
    let rows = shape.attention.tokens;
    lemma_linear_same(stack.input, before, after, rows, shape.state_width);
    lemma_linear_same(stack.output, before, after, rows, stack.width());
    lemma_settled(before, after);
    assert forall|i: int| 0 <= i < stack.layers.len() implies (
    #[trigger] stack.layers[i]).body_ready(after, shape.attention, stack.width()) by {
        assert(stack.layers[i].body_ready(before, shape.attention, stack.width()));
    }
}

/// The items of a hidden state and, where there is one, its norm.
pub open spec fn layer_state_items(
    hidden: DeviceBuffer,
    hv: Seq<SymByte>,
    norm: Option<DeviceBuffer>,
    nv: Seq<SymByte>,
) -> Seq<Item> {
    seq![(hidden, hv)] + match norm {
        Some(n) => seq![(n, nv)],
        None => Seq::empty(),
    }
}

/// Run one layer and release what it started from.
fn advance(
    be: &mut AscendBackend,
    caches: &mut AscendCaches,
    hidden: DeviceBuffer,
    norm: Option<DeviceBuffer>,
    w: ActionBuffers,
    ops: ActionOperands,
    shape: AttentionShape,
    width: i64,
    eps: u32,
    start: Ghost<DeviceState>,
    hv: Ghost<Seq<SymByte>>,
    nv: Ghost<Seq<SymByte>>,
) -> (out: (DeviceBuffer, DeviceBuffer))
    requires
        old(be).wf(),
        old(caches).wf(old(be).state()),
        start@.sane(),
        start@.tensors == old(be).state().tensors,
        fits(shape.tokens, width),
        w.weights_ready(start@, ops, shape, width),
        hidden.len == shape.tokens * width * 2,
        match norm {
            Some(n) => {
                &&& ops.start == Start::Normalized(n)
                &&& n.len == shape.tokens * width * 2
            },
            None => {
                &&& ops.start matches Start::Style(s) && is_style(start@, s, width)
                &&& nv@ == adaptive_value(
                    hv@,
                    start@.value(ops.start->Style_0),
                    shape.tokens,
                    width,
                    eps,
                )
            },
        },
        owns(start@, old(be).state(), layer_state_items(hidden, hv@, norm, nv@)),
    ensures
        final(be).wf(),
        final(be).spec_device() == old(be).spec_device(),
        caches_kept(*old(caches), *final(caches), final(be).state()),
        shape.table_span(*final(caches)) == shape.table_span(*old(caches)),
        out.0.len == hidden.len,
        out.1.len == hidden.len,
        ({
            let mp = shape.table_span(*old(caches));
            let vals = ops.values(start@, shape.kv_d());
            owns(
                start@,
                final(be).state(),
                seq![
                    (out.0, w.hidden(start@, nv@, vals, shape, width, eps, mp)),
                    (out.1, w.next(start@, nv@, vals, shape, width, eps, mp)),
                ],
            )
        }),
{
    let ghost s0 = start@;
    let ghost s1 = be.state();
    let ghost mp = shape.table_span(*caches);
    let ghost vals = ops.values(s0, shape.kv_d());
    let ghost before = layer_state_items(hidden, hv@, norm, nv@);
    proof {
        be.ctx.lemma_safe();
        lemma_owns(s0, s1, before);
        lemma_fits(shape.tokens, width);
        assert(before[0] == (hidden, hv@));
        match norm {
            Some(n) => {
                assert(before[1] == (n, nv@));
                assert(rows_value(nv@, 0, shape.tokens, width) =~= nv@);
            },
            None => {},
        }
        w.lemma_weights_same(s0, s1, ops, shape, width);
        assert(ops.normalized(s1, hv@, shape.tokens, width, eps) == nv@);
    }
    let (h, n) = action_layer(be, caches, &hidden, w, ops, shape, width, eps);
    let ghost s2 = be.state();
    let ghost k2 = *caches;
    let ghost hv2 = w.hidden(s0, nv@, vals, shape, width, eps, mp);
    let ghost nv2 = w.next(s0, nv@, vals, shape, width, eps, mp);
    let ghost after = seq![(h, hv2), (n, nv2)];
    proof {
        be.ctx.lemma_safe();
        assert(hv2 == w.hidden(s1, nv@, vals, shape, width, eps, mp));
        assert(nv2 == w.next(s1, nv@, vals, shape, width, eps, mp));
        lemma_owns_then(s0, s1, s2, before, after);
        let all = before + after;
        assert(all[0] == (hidden, hv@));
        assert(is_item(all[0], s2.fresh, s0.issued, s2.issued));
    }
    drop_temp(&mut be.ctx, hidden, Ghost(s0));
    let ghost s3 = be.state();
    proof {
        let all = before + after;
        lemma_owns_drop(s0, s2, s3, all, 0);
        lemma_dropped_stable(s2, s3, hidden);
        k2.lemma_stable(s2, s3);
    }
    match norm {
        Some(previous) => {
            let ghost rest = seq![(previous, nv@)] + after;
            proof {
                assert((before + after).remove(0) =~= rest);
                assert(rest[0] == (previous, nv@));
                assert(is_item(rest[0], s3.fresh, s0.issued, s3.issued));
            }
            drop_temp(&mut be.ctx, previous, Ghost(s0));
            proof {
                lemma_owns_drop(s0, s3, be.state(), rest, 0);
                assert(rest.remove(0) =~= after);
                lemma_dropped_stable(s3, be.state(), previous);
                k2.lemma_stable(s3, be.state());
            }
        },
        None => {
            proof {
                assert((before + after).remove(0) =~= after);
            }
        },
    }
    (h, n)
}

/// Run the input projection and the layers. Returns the hidden state and its norm.
fn run_layers(
    be: &mut AscendBackend,
    caches: &mut AscendCaches,
    state: &DeviceBuffer,
    stack: &ActionStack,
    styles: &StyleBuffers,
    prefix: &PrefixBuffers,
    shape: StepShape,
) -> (out: (DeviceBuffer, DeviceBuffer, Ghost<Seq<SymByte>>))
    requires
        old(be).wf(),
        old(caches).wf(old(be).state()),
        stack@.ready(old(be).state(), styles@, prefix@, shape),
        is_rows(old(be).state(), *state, shape.attention.tokens, shape.state_width),
    ensures
        final(be).wf(),
        final(be).spec_device() == old(be).spec_device(),
        caches_kept(*old(caches), *final(caches), final(be).state()),
        shape.attention.table_span(*final(caches)) == shape.attention.table_span(*old(caches)),
        out.1.len == shape.attention.tokens * stack@.width() * 2,
        ({
            let st = old(be).state();
            let mp = shape.attention.table_span(*old(caches));
            owns(
                st,
                final(be).state(),
                seq![
                    (out.0, out.2@),
                    (
                        out.1,
                        stack@.norms(
                            st,
                            st.value(*state),
                            styles@.values(st),
                            prefix@.values(st, shape.attention.kv_d()),
                            shape,
                            mp,
                            stack.layers@.len(),
                        ),
                    ),
                ],
            )
        }),
{
    let ghost s0 = be.state();
    let ghost k0 = *caches;
    let ghost mp = shape.attention.table_span(*caches);
    let ghost sv = s0.value(*state);
    let ghost device = be.spec_device();
    let ghost depth = stack.layers@.len();
    let ghost stv = styles@.values(s0);
    let ghost pfv = prefix@.values(s0, shape.attention.kv_d());
    let rows: i64 = shape.attention.tokens;
    let width: i64 = stack.input.out_width;
    proof {
        be.ctx.lemma_safe();
    }
    let mut hidden = linear(
        &mut be.ctx,
        caches,
        state,
        rows,
        shape.state_width,
        stack.input,
    );
    let ghost mut hv = stack.input.value(s0, sv, rows, shape.state_width);
    let mut norm: Option<DeviceBuffer> = None;
    let mut i: usize = 0;
    proof {
        be.ctx.lemma_safe();
        lemma_owns_one(s0, be.state(), hidden, hv);
        assert(layer_state_items(
            hidden,
            hv,
            norm,
            stack@.norms(s0, sv, stv, pfv, shape, mp, 0),
        ) =~= seq![(hidden, hv)]);
    }
    while i < stack.layers.len()
        invariant
            i <= stack.layers@.len(),
            depth == stack.layers@.len(),
            be.wf(),
            s0.sane(),
            s0.tensors == be.state().tensors,
            be.spec_device() == device,
            caches_kept(k0, *caches, be.state()),
            shape.attention.table_span(*caches) == mp,
            stack@.ready(s0, styles@, prefix@, shape),
            stv == styles@.values(s0),
            pfv == prefix@.values(s0, shape.attention.kv_d()),
            rows == shape.attention.tokens,
            width == stack@.width(),
            fits(rows, width),
            hidden.len == rows * width * 2,
            (norm is Some) == (i > 0),
            norm matches Some(n) ==> n.len == rows * width * 2,
            i == 0 ==> hv == stack.input.value(s0, sv, rows, shape.state_width),
            owns(
                s0,
                be.state(),
                layer_state_items(
                    hidden,
                    hv,
                    norm,
                    stack@.norms(s0, sv, stv, pfv, shape, mp, i as nat),
                ),
            ),
        decreases stack.layers@.len() - i,
    {
        let w = stack.layers[i];
        let start = match norm {
            Some(n) => Start::Normalized(n),
            None => Start::Style(styles.attention[i]),
        };
        let next_norm = if i + 1 < stack.layers.len() {
            styles.attention[i + 1]
        } else {
            styles.last
        };
        let ops = ActionOperands {
            start,
            mlp_style: styles.mlp[i],
            next_style: next_norm,
            prefix_k: prefix.keys[i],
            prefix_v: prefix.values[i],
        };
        let ghost nv = stack@.norms(s0, sv, stv, pfv, shape, mp, i as nat);
        let ghost own_ops = styled_operands(styles@, prefix@, depth, i as int);
        proof {
            assert(stack.layers@[i as int].weights_ready(s0, own_ops, shape.attention, width));
            assert(w.weights_ready(s0, ops, shape.attention, width));
            lemma_step_values(
                s0,
                start,
                styles@,
                prefix@,
                shape.attention.kv_d(),
                depth,
                i as int,
            );
            assert(ops == step_operands(start, styles@, prefix@, depth, i as int));
        }
        let (h, n) = advance(
            be,
            caches,
            hidden,
            norm,
            w,
            ops,
            shape.attention,
            width,
            shape.eps,
            Ghost(s0),
            Ghost(hv),
            Ghost(nv),
        );
        hidden = h;
        norm = Some(n);
        proof {
            let vals = ops.values(s0, shape.attention.kv_d());
            hv = w.hidden(s0, nv, vals, shape.attention, width, shape.eps, mp);
            let nv2 = stack@.norms(s0, sv, stv, pfv, shape, mp, (i + 1) as nat);
            assert(nv2 == w.next(s0, nv, vals, shape.attention, width, shape.eps, mp));
            assert(layer_state_items(h, hv, norm, nv2) =~= seq![(h, hv), (n, nv2)]);
        }
        i = i + 1;
    }
    let last = match norm {
        Some(n) => n,
        None => hidden,
    };
    proof {
        let nv = stack@.norms(s0, sv, stv, pfv, shape, mp, depth);
        assert(layer_state_items(hidden, hv, norm, nv) =~= seq![(hidden, hv), (last, nv)]);
    }
    (hidden, last, Ghost(hv))
}

/// Run a flow step of size `dt`, a single-precision pattern.
pub fn run_step(
    be: &mut AscendBackend,
    caches: &mut AscendCaches,
    state: &DeviceBuffer,
    stack: &ActionStack,
    styles: &StyleBuffers,
    prefix: &PrefixBuffers,
    shape: StepShape,
    dt: u32,
) -> (out: DeviceBuffer)
    requires
        old(be).wf(),
        old(caches).wf(old(be).state()),
        stack@.ready(old(be).state(), styles@, prefix@, shape),
        is_rows(old(be).state(), *state, shape.attention.tokens, shape.state_width),
    ensures
        final(be).wf(),
        final(be).spec_device() == old(be).spec_device(),
        caches_kept(*old(caches), *final(caches), final(be).state()),
        shape.attention.table_span(*final(caches)) == shape.attention.table_span(*old(caches)),
        out.len == state.len,
        delivers(
            old(be).state(),
            final(be).state(),
            out,
            stack@.step(
                old(be).state(),
                old(be).state().value(*state),
                styles@.values(old(be).state()),
                prefix@.values(old(be).state(), shape.attention.kv_d()),
                shape,
                shape.attention.table_span(*old(caches)),
                dt,
            ),
        ),
{
    let ghost s0 = be.state();
    let ghost mp = shape.attention.table_span(*caches);
    let ghost sv = s0.value(*state);
    let ghost stv = styles@.values(s0);
    let ghost pfv = prefix@.values(s0, shape.attention.kv_d());
    let rows: i64 = shape.attention.tokens;
    let width: i64 = stack.input.out_width;
    let out_w: i64 = stack.output.out_width;
    proof {
        be.ctx.lemma_safe();
        lemma_aligned(rows, out_w);
        lemma_fits_smaller(aligned_rows(rows), out_w, rows, out_w);
        lemma_fits(rows, out_w);
    }
    let (hidden, norm, Ghost(hv)) = run_layers(be, caches, state, stack, styles, prefix, shape);
    let ghost s1 = be.state();
    let ghost nv = stack@.norms(s0, sv, stv, pfv, shape, mp, stack.layers@.len());
    let ghost i1 = seq![(hidden, hv), (norm, nv)];
    proof {
        be.ctx.lemma_safe();
        lemma_owns(s0, s1, i1);
        assert(i1[1] == (norm, nv));
        lemma_linear_same(stack.output, s0, s1, rows, width);
    }
    let velocity = linear(&mut be.ctx, caches, &norm, rows, width, stack.output);
    let ghost s2 = be.state();
    let ghost k2 = *caches;
    let ghost vv = stack@.velocity(s0, sv, stv, pfv, shape, mp);
    proof {
        be.ctx.lemma_safe();
        lemma_yields(s1, s2, velocity, vv);
        lemma_owns_one(s1, s2, velocity, vv);
        lemma_owns_then(s0, s1, s2, i1, seq![(velocity, vv)]);
    }
    let out = euler_mul(&mut be.ctx, state, &velocity, dt, rows, out_w);
    let ghost s3 = be.state();
    let ghost ov = stack@.step(s0, sv, stv, pfv, shape, mp, dt);
    let ghost all = seq![(hidden, hv), (norm, nv), (velocity, vv), (out, ov)];
    proof {
        be.ctx.lemma_safe();
        lemma_gains(s2, s3, out, ov);
        lemma_owns_one(s2, s3, out, ov);
        lemma_owns_then(s0, s2, s3, i1 + seq![(velocity, vv)], seq![(out, ov)]);
        assert(i1 + seq![(velocity, vv)] + seq![(out, ov)] =~= all);
        assert(is_item(all[0], s3.fresh, s0.issued, s3.issued));
        assert(is_item(all[1], s3.fresh, s0.issued, s3.issued));
        assert(is_item(all[2], s3.fresh, s0.issued, s3.issued));
        assert(item_id(all[0]) != item_id(all[1]));
        assert(item_id(all[0]) != item_id(all[2]));
        assert(item_id(all[1]) != item_id(all[2]));
    }
    drop_temp(&mut be.ctx, velocity, Ghost(s0));
    let ghost s4 = be.state();
    drop_temp(&mut be.ctx, norm, Ghost(s0));
    let ghost s5 = be.state();
    drop_temp(&mut be.ctx, hidden, Ghost(s0));
    proof {
        let end = be.state();
        lemma_owns_drop(s0, s3, s4, all, 2);
        let a = seq![(hidden, hv), (norm, nv), (out, ov)];
        assert(all.remove(2) =~= a);
        lemma_owns_drop(s0, s4, s5, a, 1);
        let b = seq![(hidden, hv), (out, ov)];
        assert(a.remove(1) =~= b);
        lemma_owns_drop(s0, s5, end, b, 0);
        assert(b.remove(0) =~= seq![(out, ov)]);
        lemma_owns_one(s0, end, out, ov);
        assert(stable(s2, end));
        k2.lemma_stable(s2, end);
    }
    out
}

/// The state after the first `n` steps.
pub open spec fn flow(
    stack: ActionWeights,
    st: DeviceState,
    noise: Seq<SymByte>,
    styles: Seq<StyleValues>,
    prefix: PrefixValues,
    shape: StepShape,
    max_pos: usize,
    dt: u32,
    n: nat,
) -> Seq<SymByte>
    decreases n,
{
    if n == 0 {
        noise
    } else {
        stack.step(
            st,
            flow(stack, st, noise, styles, prefix, shape, max_pos, dt, (n - 1) as nat),
            styles[n - 1],
            prefix,
            shape,
            max_pos,
            dt,
        )
    }
}

/// What the styles of the steps hold.
pub open spec fn style_values(st: DeviceState, styles: Seq<Styles>) -> Seq<StyleValues> {
    Seq::new(styles.len(), |i: int| styles[i].values(st))
}

/// The normalized rows are the same in a later state.
proof fn lemma_norms_same(
    stack: ActionWeights,
    before: DeviceState,
    after: DeviceState,
    state: Seq<SymByte>,
    styles: StyleValues,
    prefix: PrefixValues,
    shape: StepShape,
    max_pos: usize,
    n: nat,
)
    requires
        before.sane(),
        keeps(before, after),
        stack.body_ready(before, shape),
        n <= stack.layers.len(),
        forall|b: DeviceBuffer| before.holds(b) && is_lasting(b) ==> #[trigger] after.holds(b),
        forall|b: DeviceBuffer|
            before.holds(b) && is_lasting(b) ==> #[trigger] after.value(b) == before.value(b),
    ensures
        stack.norms(after, state, styles, prefix, shape, max_pos, n) == stack.norms(
            before,
            state,
            styles,
            prefix,
            shape,
            max_pos,
            n,
        ),
    decreases n,
{
    let rows = shape.attention.tokens;
    if n == 0 {
        lemma_linear_same(stack.input, before, after, rows, shape.state_width);
        assert(stack.input.value(after, state, rows, shape.state_width) == stack.input.value(
            before,
            state,
            rows,
            shape.state_width,
        ));
    } else {
        lemma_norms_same(
            stack,
            before,
            after,
            state,
            styles,
            prefix,
            shape,
            max_pos,
            (n - 1) as nat,
        );
        assert(stack.layers[n - 1].body_ready(before, shape.attention, stack.width()));
        stack.layers[n - 1].lemma_body_same(before, after, shape.attention, stack.width());
    }
}

/// A step does the same in a later state.
pub proof fn lemma_step_same(
    stack: ActionWeights,
    before: DeviceState,
    after: DeviceState,
    state: Seq<SymByte>,
    styles: StyleValues,
    prefix: PrefixValues,
    shape: StepShape,
    max_pos: usize,
    dt: u32,
)
    requires
        before.sane(),
        keeps(before, after),
        stack.body_ready(before, shape),
        forall|b: DeviceBuffer| before.holds(b) && is_lasting(b) ==> #[trigger] after.holds(b),
        forall|b: DeviceBuffer|
            before.holds(b) && is_lasting(b) ==> #[trigger] after.value(b) == before.value(b),
    ensures
        stack.step(after, state, styles, prefix, shape, max_pos, dt) == stack.step(
            before,
            state,
            styles,
            prefix,
            shape,
            max_pos,
            dt,
        ),
{
    let rows = shape.attention.tokens;
    let depth = stack.layers.len();
    lemma_linear_same(stack.output, before, after, rows, stack.width());
    lemma_norms_same(stack, before, after, state, styles, prefix, shape, max_pos, depth);
    let nv = stack.norms(before, state, styles, prefix, shape, max_pos, depth);
    assert(stack.output.value(after, nv, rows, stack.width()) == stack.output.value(
        before,
        nv,
        rows,
        stack.width(),
    ));
}

/// The flow is the same in a later state.
pub proof fn lemma_flow_same(
    stack: ActionWeights,
    before: DeviceState,
    after: DeviceState,
    noise: Seq<SymByte>,
    styles: Seq<StyleValues>,
    prefix: PrefixValues,
    shape: StepShape,
    max_pos: usize,
    dt: u32,
    n: nat,
)
    requires
        before.sane(),
        keeps(before, after),
        stack.body_ready(before, shape),
        forall|b: DeviceBuffer| before.holds(b) && is_lasting(b) ==> #[trigger] after.holds(b),
        forall|b: DeviceBuffer|
            before.holds(b) && is_lasting(b) ==> #[trigger] after.value(b) == before.value(b),
    ensures
        flow(stack, after, noise, styles, prefix, shape, max_pos, dt, n) == flow(
            stack,
            before,
            noise,
            styles,
            prefix,
            shape,
            max_pos,
            dt,
            n,
        ),
    decreases n,
{
    if n > 0 {
        lemma_flow_same(
            stack,
            before,
            after,
            noise,
            styles,
            prefix,
            shape,
            max_pos,
            dt,
            (n - 1) as nat,
        );
        let x = flow(stack, before, noise, styles, prefix, shape, max_pos, dt, (n - 1) as nat);
        lemma_step_same(
            stack,
            before,
            after,
            x,
            styles[n - 1],
            prefix,
            shape,
            max_pos,
            dt,
        );
    }
}

/// Everything that a step reads is the same in a later state.
pub proof fn lemma_operands_same(
    stack: ActionWeights,
    before: DeviceState,
    after: DeviceState,
    styles: Styles,
    prefix: Prefix,
    shape: StepShape,
)
    requires
        before.sane(),
        keeps(before, after),
        stack.ready(before, styles, prefix, shape),
        forall|b: DeviceBuffer| before.holds(b) && is_lasting(b) ==> #[trigger] after.holds(b),
        forall|b: DeviceBuffer|
            before.holds(b) && is_lasting(b) ==> #[trigger] after.value(b) == before.value(b),
    ensures
        stack.body_ready(before, shape),
        stack.ready(after, styles, prefix, shape),
        styles.values(after) == styles.values(before),
        prefix.values(after, shape.attention.kv_d()) == prefix.values(
            before,
            shape.attention.kv_d(),
        ),
{
    let rows = shape.attention.tokens;
    let depth = stack.layers.len();
    lemma_linear_same(stack.input, before, after, rows, shape.state_width);
    lemma_linear_same(stack.output, before, after, rows, stack.width());
    assert forall|i: int| 0 <= i < depth implies (#[trigger] stack.layers[i]).weights_ready(
        after,
        styled_operands(styles, prefix, depth, i),
        shape.attention,
        stack.width(),
    ) by {
        stack.layers[i].lemma_weights_same(
            before,
            after,
            styled_operands(styles, prefix, depth, i),
            shape.attention,
            stack.width(),
        );
    }
    assert forall|i: int| 0 <= i < depth implies (#[trigger] stack.layers[i]).body_ready(
        before,
        shape.attention,
        stack.width(),
    ) by {
        assert(stack.layers[i].weights_ready(
            before,
            styled_operands(styles, prefix, depth, i),
            shape.attention,
            stack.width(),
        ));
    }
    assert forall|i: int| 0 <= i < depth implies before.holds(
        #[trigger] styles.attention[i],
    ) && is_lasting(styles.attention[i]) by {
        if i > 0 {
            let j = i - 1;
            assert(stack.layers[j].weights_ready(
                before,
                styled_operands(styles, prefix, depth, j),
                shape.attention,
                stack.width(),
            ));
        }
    }
    assert forall|i: int| 0 <= i < depth implies before.holds(#[trigger] styles.mlp[i])
        && is_lasting(styles.mlp[i]) && before.holds(prefix.keys[i]) && is_lasting(
        prefix.keys[i],
    ) && before.holds(prefix.values[i]) && is_lasting(prefix.values[i]) by {
        assert(stack.layers[i].weights_ready(
            before,
            styled_operands(styles, prefix, depth, i),
            shape.attention,
            stack.width(),
        ));
    }
    assert(stack.layers[depth - 1].weights_ready(
        before,
        styled_operands(styles, prefix, depth, depth - 1),
        shape.attention,
        stack.width(),
    ));
    assert(values_of(after, styles.attention) =~= values_of(before, styles.attention));
    assert(values_of(after, styles.mlp) =~= values_of(before, styles.mlp));
    assert forall|i: int| 0 <= i < depth implies after.value(#[trigger] prefix.keys[i])
        == before.value(prefix.keys[i]) by {
        assert(before.holds(styles.mlp[i]));
    }
    assert forall|i: int| 0 <= i < depth implies after.value(#[trigger] prefix.values[i])
        == before.value(prefix.values[i]) by {
        assert(before.holds(styles.mlp[i]));
    }
    assert(values_of(after, prefix.keys) =~= values_of(before, prefix.keys));
    assert(values_of(after, prefix.values) =~= values_of(before, prefix.values));
}

/// Run all flow steps. Without any, the result is the noise itself.
pub fn run_flow(
    be: &mut AscendBackend,
    caches: &mut AscendCaches,
    noise: &DeviceBuffer,
    stack: &ActionStack,
    styles: &Vec<StyleBuffers>,
    prefix: &PrefixBuffers,
    shape: StepShape,
    dt: u32,
) -> (out: DeviceBuffer)
    requires
        old(be).wf(),
        old(caches).wf(old(be).state()),
        styles@.len() > 0 ==> is_rows(
            old(be).state(),
            *noise,
            shape.attention.tokens,
            shape.state_width,
        ),
        forall|i: int|
            0 <= i < styles@.len() ==> stack@.ready(
                old(be).state(),
                (#[trigger] styles@[i])@,
                prefix@,
                shape,
            ),
    ensures
        final(be).wf(),
        final(be).spec_device() == old(be).spec_device(),
        caches_kept(*old(caches), *final(caches), final(be).state()),
        shape.attention.table_span(*final(caches)) == shape.attention.table_span(*old(caches)),
        out.len == noise.len,
        styles@.len() == 0 ==> out == *noise && *final(be) == *old(be),
        styles@.len() > 0 ==> delivers(
            old(be).state(),
            final(be).state(),
            out,
            flow(
                stack@,
                old(be).state(),
                old(be).state().value(*noise),
                style_values(old(be).state(), styles_of(styles@)),
                prefix@.values(old(be).state(), shape.attention.kv_d()),
                shape,
                shape.attention.table_span(*old(caches)),
                dt,
                styles@.len(),
            ),
        ),
{
    let ghost s0 = be.state();
    let ghost b0 = *be;
    let ghost k0 = *caches;
    let ghost mp = shape.attention.table_span(*caches);
    let ghost xv = s0.value(*noise);
    let ghost sv = style_values(s0, styles_of(styles@));
    let ghost pv = prefix@.values(s0, shape.attention.kv_d());
    proof {
        be.ctx.lemma_safe();
    }
    let mut state: DeviceBuffer = *noise;
    let mut i: usize = 0;
    while i < styles.len()
        invariant
            i <= styles@.len(),
            be.wf(),
            s0.sane(),
            s0 == b0.state(),
            b0.wf(),
            be.spec_device() == b0.spec_device(),
            caches_kept(k0, *caches, be.state()),
            shape.attention.table_span(*caches) == mp,
            styles@.len() > 0 ==> is_rows(
                s0,
                *noise,
                shape.attention.tokens,
                shape.state_width,
            ),
            forall|j: int|
                0 <= j < styles@.len() ==> stack@.ready(s0, (#[trigger] styles@[j])@, prefix@, shape),
            xv == s0.value(*noise),
            sv == style_values(s0, styles_of(styles@)),
            pv == prefix@.values(s0, shape.attention.kv_d()),
            state.len == noise.len,
            i == 0 ==> *be == b0 && state == *noise,
            i > 0 ==> delivers(
                s0,
                be.state(),
                state,
                flow(stack@, s0, xv, sv, pv, shape, mp, dt, i as nat),
            ),
        decreases styles@.len() - i,
    {
        let ghost s1 = be.state();
        let ghost fv = flow(stack@, s0, xv, sv, pv, shape, mp, dt, i as nat);
        proof {
            if i > 0 {
                lemma_delivers(s0, s1, state, fv);
            }
            assert(stack@.ready(s0, styles@[i as int]@, prefix@, shape));
            lemma_operands_same(stack@, s0, s1, styles@[i as int]@, prefix@, shape);
            lemma_step_same(stack@, s0, s1, fv, sv[i as int], pv, shape, mp, dt);
        }
        let next = run_step(be, caches, &state, stack, &styles[i], prefix, shape, dt);
        let ghost s2 = be.state();
        let ghost k2 = *caches;
        if i > 0 {
            drop_temp(&mut be.ctx, state, Ghost(s0));
        }
        proof {
            let end = be.state();
            match next.base {
                Base::Fresh(id) => {
                    assert(end.fresh =~= s0.fresh.insert(
                        id,
                        flow(stack@, s0, xv, sv, pv, shape, mp, dt, (i + 1) as nat),
                    ));
                },
                _ => {},
            }
            lemma_keeps_then(s0, s1, s2);
            assert(stable(s2, end));
            k2.lemma_stable(s2, end);
        }
        state = next;
        i = i + 1;
    }
    state
}

} // verus!
