//! The prefix that actions attend to: vision and language tokens through the
//! language model.

use vstd::prelude::*;

use crate::backend::AscendBackend;
use crate::cache::{lemma_only_kept, stable};
use crate::capture::{lemma_quiet_then, quiet};
use crate::device::{Base, DeviceBuffer};
use crate::encode::{index_bytes, listed};
use crate::error::{first_of, lemma_first_of, Error, ErrorView};
use crate::executor::attention::{lemma_attention_sizes, AttentionShape};
use crate::executor::blocks::{cat2, cat2_value};
use crate::executor::caches::{caches_kept, AscendCaches};
use crate::executor::frame::{
    drop_temp, is_item, lemma_dropped_stable, lemma_owns, lemma_owns_drop, lemma_owns_nothing,
    lemma_owns_swap, lemma_owns_then, owns, Item,
};
use crate::executor::language::{
    language_buffers, language_layer, language_weights_error, layer_items, lemma_language_warm,
    resolve_language, LanguageBuffers, LayerBuffers,
};
use crate::model::Bf16DeviceLanguageLayer;
use crate::ops::is_fp16;
use crate::ops::rows::{gather_rows_fp16, gather_value};
use crate::semantics::{delivers, is_lasting, keeps, lemma_gains, literal, DeviceState, SymByte};
use crate::tensor::{fits, lemma_fits};

verus! {

/// The embeddings of a token sequence.
pub open spec fn token_value(table: Seq<SymByte>, vocab: i64, width: i64, ids: Seq<u32>) -> Seq<
    SymByte,
> {
    gather_value(
        table,
        vocab,
        width,
        literal(index_bytes(ids.len(), listed(ids))),
        ids.len() as i64,
    )
}

/// The prefix: vision rows and then the embeddings of the tokens.
pub open spec fn prefix_value(
    vision: Seq<SymByte>,
    rows: i64,
    table: Seq<SymByte>,
    vocab: i64,
    width: i64,
    ids: Seq<u32>,
) -> Seq<SymByte> {
    cat2_value(
        vision,
        rows,
        token_value(table, vocab, width, ids),
        ids.len() as i64,
        width,
    )
}

/// Vision rows, embedding table and their sizes fit together.
pub open spec fn embed_ready(
    st: DeviceState,
    vision: DeviceBuffer,
    rows: i64,
    table: DeviceBuffer,
    vocab: i64,
    width: i64,
    count: nat,
) -> bool {
    &&& is_fp16(st, vision, seq![rows, width])
    &&& is_lasting(vision)
    &&& table_ready(st, rows, table, vocab, width, count)
}

/// The embedding table is there and the prefix can be described.
pub open spec fn table_ready(
    st: DeviceState,
    rows: i64,
    table: DeviceBuffer,
    vocab: i64,
    width: i64,
    count: nat,
) -> bool {
    &&& is_fp16(st, table, seq![vocab, width])
    &&& is_lasting(table)
    &&& rows + count <= i64::MAX
    &&& fits(count as i64, width)
    &&& fits((rows + count) as i64, width)
}

/// Append the embeddings of the tokens to the vision rows.
pub fn run_embed(
    be: &mut AscendBackend,
    caches: &mut AscendCaches,
    vision: &DeviceBuffer,
    rows: i64,
    table: &DeviceBuffer,
    vocab: i64,
    width: i64,
    ids: &[u32],
) -> (out: DeviceBuffer)
    requires
        old(be).wf(),
        old(caches).wf(old(be).state()),
        embed_ready(old(be).state(), *vision, rows, *table, vocab, width, ids@.len()),
    ensures
        final(be).wf(),
        final(be).spec_device() == old(be).spec_device(),
        final(be).zero_slot == old(be).zero_slot,
        caches_kept(*old(caches), *final(caches), final(be).state()),
        final(caches).rope == old(caches).rope,
        out.len == (rows + ids@.len()) * width * 2,
        delivers(
            old(be).state(),
            final(be).state(),
            out,
            prefix_value(
                old(be).state().value(*vision),
                rows,
                old(be).state().value(*table),
                vocab,
                width,
                ids@,
            ),
        ),
        final(caches).has_tokens(ids@),
        old(caches).has_tokens(ids@) ==> quiet(old(be).ctx, final(be).ctx) && *final(caches)
            == *old(caches),
{
    let ghost s0 = be.state();
    proof {
        be.ctx.lemma_safe();
    }
    let count: i64 = ids.len() as i64;
    proof {
        lemma_fits(count, width);
    }
    let index = caches.token_row(&mut be.ctx, ids);
    let ghost c1 = be.ctx;
    let ghost s1 = be.state();
    let ghost k1 = *caches;
    proof {
        be.ctx.lemma_safe();
        lemma_only_kept(s0, s1);
    }
    let language = gather_rows_fp16(&mut be.ctx, table, vocab, width, &index, count);
    let ghost c2 = be.ctx;
    let ghost s2 = be.state();
    let ghost lv = token_value(s0.value(*table), vocab, width, ids@);
    proof {
        be.ctx.lemma_safe();
        lemma_gains(s1, s2, language, lv);
    }
    let out = cat2(&mut be.ctx, vision, rows, &language, count, width);
    let ghost c3 = be.ctx;
    drop_temp(&mut be.ctx, language, Ghost(s0));
    proof {
        let end = be.state();
        match out.base {
            Base::Fresh(id) => {
                assert(end.fresh =~= s0.fresh.insert(
                    id,
                    prefix_value(
                        s0.value(*vision),
                        rows,
                        s0.value(*table),
                        vocab,
                        width,
                        ids@,
                    ),
                ));
            },
            _ => {},
        }
        assert(stable(s1, end));
        k1.lemma_stable(s1, end);
        lemma_quiet_then(c1, c2, c3);
        lemma_quiet_then(c1, c3, be.ctx);
    }
    out
}

/// The hidden state after the first `n` layers.
pub open spec fn language_hidden(
    st: DeviceState,
    x: Seq<SymByte>,
    layers: Seq<LanguageBuffers>,
    shape: AttentionShape,
    width: i64,
    eps: u32,
    max_pos: usize,
    n: nat,
) -> Seq<SymByte>
    decreases n,
{
    if n == 0 {
        x
    } else {
        layers[n - 1].hidden(
            st,
            language_hidden(st, x, layers, shape, width, eps, max_pos, (n - 1) as nat),
            shape,
            width,
            eps,
            max_pos,
        )
    }
}

/// The keys of layer `i`.
pub open spec fn prefix_keys(
    st: DeviceState,
    x: Seq<SymByte>,
    layers: Seq<LanguageBuffers>,
    shape: AttentionShape,
    width: i64,
    eps: u32,
    max_pos: usize,
    i: int,
) -> Seq<SymByte> {
    layers[i].keys(
        st,
        language_hidden(st, x, layers, shape, width, eps, max_pos, i as nat),
        shape,
        width,
        eps,
        max_pos,
    )
}

/// The values of layer `i`.
pub open spec fn prefix_values(
    st: DeviceState,
    x: Seq<SymByte>,
    layers: Seq<LanguageBuffers>,
    shape: AttentionShape,
    width: i64,
    eps: u32,
    max_pos: usize,
    i: int,
) -> Seq<SymByte> {
    layers[i].values(
        st,
        language_hidden(st, x, layers, shape, width, eps, max_pos, i as nat),
        shape,
        width,
        eps,
    )
}

/// Keys and values of the first `n` layers in device memory, values first.
pub open spec fn kv_items(
    keys: Seq<DeviceBuffer>,
    values: Seq<DeviceBuffer>,
    st: DeviceState,
    x: Seq<SymByte>,
    layers: Seq<LanguageBuffers>,
    shape: AttentionShape,
    width: i64,
    eps: u32,
    max_pos: usize,
    n: nat,
) -> Seq<Item> {
    Seq::new(
        2 * n,
        |j: int|
            if j % 2 == 0 {
                (
                    values[j / 2],
                    prefix_values(st, x, layers, shape, width, eps, max_pos, j / 2),
                )
            } else {
                (keys[j / 2], prefix_keys(st, x, layers, shape, width, eps, max_pos, j / 2))
            },
    )
}

/// Keys and values of the layers.
#[derive(Debug)]
pub struct PrefixBuffers {
    pub keys: Vec<DeviceBuffer>,
    pub values: Vec<DeviceBuffer>,
}

/// What [`PrefixBuffers`] say.
pub struct Prefix {
    pub keys: Seq<DeviceBuffer>,
    pub values: Seq<DeviceBuffer>,
}

impl View for PrefixBuffers {
    type V = Prefix;

    open spec fn view(&self) -> Prefix {
        Prefix { keys: self.keys@, values: self.values@ }
    }
}

/// Input and layers are there and have the sizes that the model needs.
pub open spec fn layers_ready(
    st: DeviceState,
    x: DeviceBuffer,
    layers: Seq<LanguageBuffers>,
    shape: AttentionShape,
    width: i64,
) -> bool {
    &&& layers.len() > 0 ==> shape.fits() && is_fp16(st, x, seq![shape.tokens, width])
        && is_lasting(x)
    &&& forall|i: int|
        0 <= i < layers.len() ==> (#[trigger] layers[i]).weights_ready(st, shape, width)
}

/// Everything that the layers look up is there already.
pub open spec fn layers_warm(
    be: AscendBackend,
    caches: AscendCaches,
    x: DeviceBuffer,
    layers: Seq<LanguageBuffers>,
    shape: AttentionShape,
    width: i64,
) -> bool {
    forall|i: int|
        0 <= i < layers.len() ==> (#[trigger] layers[i]).warm(be, caches, x, shape, width)
}

/// The layers read the same in a later state.
proof fn lemma_layer_same(
    w: LanguageBuffers,
    before: DeviceState,
    after: DeviceState,
    x: Seq<SymByte>,
    shape: AttentionShape,
    width: i64,
    eps: u32,
    max_pos: usize,
)
    requires
        before.sane(),
        keeps(before, after),
        w.weights_ready(before, shape, width),
        forall|b: DeviceBuffer| before.holds(b) && is_lasting(b) ==> #[trigger] after.holds(b),
        forall|b: DeviceBuffer|
            before.holds(b) && is_lasting(b) ==> #[trigger] after.value(b) == before.value(b),
    ensures
        w.weights_ready(after, shape, width),
        w.values(after, x, shape, width, eps) == w.values(before, x, shape, width, eps),
        w.keys(after, x, shape, width, eps, max_pos) == w.keys(
            before,
            x,
            shape,
            width,
            eps,
            max_pos,
        ),
        w.hidden(after, x, shape, width, eps, max_pos) == w.hidden(
            before,
            x,
            shape,
            width,
            eps,
            max_pos,
        ),
{
    w.lemma_same(before, after, shape, width);
}

/// Adding the values and keys of the next layer.
proof fn lemma_next_kv(
    keys: Seq<DeviceBuffer>,
    values: Seq<DeviceBuffer>,
    key: DeviceBuffer,
    value: DeviceBuffer,
    st: DeviceState,
    x: Seq<SymByte>,
    layers: Seq<LanguageBuffers>,
    shape: AttentionShape,
    width: i64,
    eps: u32,
    max_pos: usize,
    n: nat,
)
    requires
        keys.len() == n,
        values.len() == n,
    ensures
        kv_items(keys, values, st, x, layers, shape, width, eps, max_pos, n) + seq![
            (value, prefix_values(st, x, layers, shape, width, eps, max_pos, n as int)),
            (key, prefix_keys(st, x, layers, shape, width, eps, max_pos, n as int)),
        ] == kv_items(
            keys.push(key),
            values.push(value),
            st,
            x,
            layers,
            shape,
            width,
            eps,
            max_pos,
            n + 1,
        ),
{
    let a = kv_items(keys, values, st, x, layers, shape, width, eps, max_pos, n) + seq![
        (value, prefix_values(st, x, layers, shape, width, eps, max_pos, n as int)),
        (key, prefix_keys(st, x, layers, shape, width, eps, max_pos, n as int)),
    ];
    let b = kv_items(
        keys.push(key),
        values.push(value),
        st,
        x,
        layers,
        shape,
        width,
        eps,
        max_pos,
        n + 1,
    );
    assert(a.len() == b.len());
    assert forall|j: int| 0 <= j < a.len() implies a[j] == b[j] by {
        if j < 2 * n {
            assert(j / 2 < n);
        } else {
            assert(j / 2 == n);
        }
    }
    assert(a =~= b);
}

/// The items of one hidden state that is to be released.
pub open spec fn own_items(own: bool, hidden: DeviceBuffer, value: Seq<SymByte>) -> Seq<Item> {
    if own {
        seq![(hidden, value)]
    } else {
        Seq::empty()
    }
}

/// Run one layer and release the hidden state that it started from, where that is
/// ours.
fn advance(
    be: &mut AscendBackend,
    caches: &mut AscendCaches,
    hidden: DeviceBuffer,
    own: bool,
    w: LanguageBuffers,
    shape: AttentionShape,
    width: i64,
    eps: u32,
    start: Ghost<DeviceState>,
    hv: Ghost<Seq<SymByte>>,
    kv: Ghost<Seq<Item>>,
) -> (out: (LayerBuffers, DeviceBuffer, bool))
    requires
        old(be).wf(),
        old(caches).wf(old(be).state()),
        start@.sane(),
        start@.tensors == old(be).state().tensors,
        shape.fits(),
        fits(shape.tokens, width),
        w.weights_ready(start@, shape, width),
        old(be).state().holds(hidden),
        is_lasting(hidden),
        hidden.len == shape.tokens * width * 2,
        old(be).state().value(hidden) == hv@,
        owns(start@, old(be).state(), own_items(own, hidden, hv@) + kv@),
    ensures
        final(be).wf(),
        final(be).spec_device() == old(be).spec_device(),
        caches_kept(*old(caches), *final(caches), final(be).state()),
        shape.table_span(*final(caches)) == shape.table_span(*old(caches)),
        out.0.value.len == shape.tokens * shape.kv_d() * 2,
        out.0.key.len == shape.tokens * shape.kv_d() * 2,
        out.1.len == hidden.len,
        out.2 == (own || w.tail is Some),
        w.tail is None ==> out.1 == hidden,
        ({
            let mp = shape.table_span(*old(caches));
            owns(
                start@,
                final(be).state(),
                own_items(out.2, out.1, w.hidden(start@, hv@, shape, width, eps, mp)) + (kv@
                    + seq![
                    (out.0.value, w.values(start@, hv@, shape, width, eps)),
                    (out.0.key, w.keys(start@, hv@, shape, width, eps, mp)),
                ]),
            )
        }),
        w.warm(*final(be), *final(caches), hidden, shape, width),
        w.warm(*old(be), *old(caches), hidden, shape, width) ==> quiet(old(be).ctx, final(be).ctx)
            && *final(caches) == *old(caches),
{
    let ghost s0 = start@;
    let ghost s1 = be.state();
    let ghost c1 = be.ctx;
    let ghost mp = shape.table_span(*caches);
    let ghost h_items = own_items(own, hidden, hv@);
    let ghost warm = w.warm(*be, *caches, hidden, shape, width);
    proof {
        be.ctx.lemma_safe();
        lemma_owns(s0, s1, h_items + kv@);
        lemma_layer_same(w, s0, s1, hv@, shape, width, eps, mp);
        lemma_fits(shape.tokens, width);
    }
    let out = language_layer(be, caches, &hidden, w, shape, width, eps);
    let ghost s2 = be.state();
    let ghost c2 = be.ctx;
    let ghost k2 = *caches;
    let ghost vv = w.values(s0, hv@, shape, width, eps);
    let ghost kk = w.keys(s0, hv@, shape, width, eps, mp);
    let ghost nv = w.hidden(s0, hv@, shape, width, eps, mp);
    let ghost both = seq![(out.value, vv), (out.key, kk)];
    proof {
        lemma_owns_then(s0, s1, s2, h_items + kv@, layer_items(out, vv, kk, nv));
    }
    match out.hidden {
        None => {
            proof {
                assert(layer_items(out, vv, kk, nv) == both);
                assert(h_items + kv@ + both =~= h_items + (kv@ + both));
            }
            (out, hidden, own)
        },
        Some(next) => {
            let ghost rest = (kv@ + both) + seq![(next, nv)];
            proof {
                assert(layer_items(out, vv, kk, nv) =~= both + seq![(next, nv)]);
                assert(h_items + kv@ + layer_items(out, vv, kk, nv) =~= h_items + rest);
            }
            if own {
                proof {
                    assert((h_items + rest)[0] == (hidden, hv@));
                    assert(is_item((h_items + rest)[0], s2.fresh, s0.issued, s2.issued));
                }
                drop_temp(&mut be.ctx, hidden, start);
                proof {
                    lemma_owns_drop(s0, s2, be.state(), h_items + rest, 0);
                    assert((h_items + rest).remove(0) =~= rest);
                    lemma_dropped_stable(s2, be.state(), hidden);
                    k2.lemma_stable(s2, be.state());
                    if warm {
                        lemma_quiet_then(c1, c2, be.ctx);
                    }
                }
            } else {
                proof {
                    assert(h_items + rest =~= rest);
                }
            }
            proof {
                lemma_owns_swap(s0, be.state(), kv@ + both, seq![(next, nv)]);
            }
            (out, next, true)
        },
    }
}

/// Run the layers over the prefix `x` and keep their keys and values.
#[verifier::spinoff_prover]
#[verifier::rlimit(60)]
pub fn run_prefix(
    be: &mut AscendBackend,
    caches: &mut AscendCaches,
    x: &DeviceBuffer,
    layers: &Vec<LanguageBuffers>,
    shape: AttentionShape,
    width: i64,
    eps: u32,
) -> (out: PrefixBuffers)
    requires
        old(be).wf(),
        old(caches).wf(old(be).state()),
        layers_ready(old(be).state(), *x, layers@, shape, width),
    ensures
        final(be).wf(),
        final(be).spec_device() == old(be).spec_device(),
        caches_kept(*old(caches), *final(caches), final(be).state()),
        out.keys@.len() == layers@.len(),
        out.values@.len() == layers@.len(),
        forall|i: int|
            0 <= i < layers@.len() ==> (#[trigger] out.keys@[i]).len == shape.tokens
                * shape.kv_d() * 2,
        forall|i: int|
            0 <= i < layers@.len() ==> (#[trigger] out.values@[i]).len == shape.tokens
                * shape.kv_d() * 2,
        ({
            let st = old(be).state();
            let mp = shape.table_span(*old(caches));
            owns(
                st,
                final(be).state(),
                kv_items(
                    out.keys@,
                    out.values@,
                    st,
                    st.value(*x),
                    layers@,
                    shape,
                    width,
                    eps,
                    mp,
                    layers@.len(),
                ),
            )
        }),
        layers_warm(*final(be), *final(caches), *x, layers@, shape, width),
        layers_warm(*old(be), *old(caches), *x, layers@, shape, width) ==> quiet(
            old(be).ctx,
            final(be).ctx,
        ) && *final(caches) == *old(caches),
{
    let ghost c0 = be.ctx;
    let ghost s0 = be.state();
    let ghost k0 = *caches;
    let ghost mp = shape.table_span(*caches);
    let ghost xv = s0.value(*x);
    let ghost warm = layers_warm(*be, *caches, *x, layers@, shape, width);
    let ghost device = be.spec_device();
    let mut keys: Vec<DeviceBuffer> = Vec::new();
    let mut values: Vec<DeviceBuffer> = Vec::new();
    let mut hidden: DeviceBuffer = *x;
    let mut own: bool = false;
    let mut i: usize = 0;
    proof {
        be.ctx.lemma_safe();
        lemma_owns_nothing(s0);
        assert(own_items(false, hidden, xv) + kv_items(
            keys@,
            values@,
            s0,
            xv,
            layers@,
            shape,
            width,
            eps,
            mp,
            0,
        ) =~= Seq::<Item>::empty());
    }
    while i < layers.len()
        invariant
            i <= layers@.len(),
            be.wf(),
            be.state().sane(),
            s0.sane(),
            be.spec_device() == device,
            caches_kept(k0, *caches, be.state()),
            shape.table_span(*caches) == mp,
            layers_ready(s0, *x, layers@, shape, width),
            xv == s0.value(*x),
            keys@.len() == i,
            values@.len() == i,
            forall|j: int|
                0 <= j < i ==> (#[trigger] keys@[j]).len == shape.tokens * shape.kv_d() * 2,
            forall|j: int|
                0 <= j < i ==> (#[trigger] values@[j]).len == shape.tokens * shape.kv_d() * 2,
            !own ==> hidden == *x && language_hidden(
                s0,
                xv,
                layers@,
                shape,
                width,
                eps,
                mp,
                i as nat,
            ) == xv,
            hidden.len == x.len,
            owns(
                s0,
                be.state(),
                own_items(
                    own,
                    hidden,
                    language_hidden(s0, xv, layers@, shape, width, eps, mp, i as nat),
                ) + kv_items(
                    keys@,
                    values@,
                    s0,
                    xv,
                    layers@,
                    shape,
                    width,
                    eps,
                    mp,
                    i as nat,
                ),
            ),
            i > 0 ==> be.zeros_ready(x.len),
            forall|j: int|
                0 <= j < i ==> (#[trigger] layers@[j]).warm(*be, *caches, *x, shape, width),
            warm ==> layers_warm(*be, *caches, *x, layers@, shape, width) && quiet(c0, be.ctx)
                && *caches == k0,
        decreases layers@.len() - i,
    {
        let ghost s1 = be.state();
        let ghost c1 = be.ctx;
        let ghost b1 = *be;
        let ghost k1 = *caches;
        let ghost hv = language_hidden(s0, xv, layers@, shape, width, eps, mp, i as nat);
        let ghost kv = kv_items(
            keys@,
            values@,
            s0,
            xv,
            layers@,
            shape,
            width,
            eps,
            mp,
            i as nat,
        );
        let ghost h_items = own_items(own, hidden, hv);
        let ghost keys1 = keys@;
        let ghost values1 = values@;
        let w = layers[i];
        proof {
            lemma_owns(s0, s1, h_items + kv);
            if own {
                assert((h_items + kv)[0] == (hidden, hv));
            }
            assert(s1.value(hidden) == hv);
            lemma_layer_same(w, s0, s1, hv, shape, width, eps, mp);
            assert(is_fp16(s1, hidden, seq![shape.tokens, width]));
            lemma_attention_sizes(shape);
            lemma_fits(shape.tokens, width);
            if warm {
                assert(layers@[i as int].warm(*be, *caches, *x, shape, width));
                lemma_language_warm(w, *be, *caches, *be, *caches, *x, hidden, shape, width);
            }
        }
        let (out, next, next_own) = advance(
            be,
            caches,
            hidden,
            own,
            w,
            shape,
            width,
            eps,
            Ghost(s0),
            Ghost(hv),
            Ghost(kv),
        );
        keys.push(out.key);
        values.push(out.value);
        proof {
            be.ctx.lemma_safe();
            lemma_next_kv(
                keys1,
                values1,
                out.key,
                out.value,
                s0,
                xv,
                layers@,
                shape,
                width,
                eps,
                mp,
                i as nat,
            );
            assert forall|j: int| 0 <= j < i + 1 implies (#[trigger] layers@[j]).warm(
                *be,
                *caches,
                *x,
                shape,
                width,
            ) by {
                if j < i {
                    lemma_language_warm(layers@[j], b1, k1, *be, *caches, *x, *x, shape, width);
                } else {
                    lemma_language_warm(
                        w,
                        *be,
                        *caches,
                        *be,
                        *caches,
                        hidden,
                        *x,
                        shape,
                        width,
                    );
                }
            }
            if warm {
                assert forall|j: int| 0 <= j < layers@.len() implies (#[trigger] layers@[j]).warm(
                    *be,
                    *caches,
                    *x,
                    shape,
                    width,
                ) by {
                    lemma_language_warm(layers@[j], b1, k1, *be, *caches, *x, *x, shape, width);
                }
                lemma_quiet_then(c0, c1, be.ctx);
            }
        }
        hidden = next;
        own = next_own;
        i = i + 1;
    }
    let ghost s3 = be.state();
    let ghost c3 = be.ctx;
    let ghost k3 = *caches;
    if own {
        let ghost hv = language_hidden(s0, xv, layers@, shape, width, eps, mp, i as nat);
        let ghost kv = kv_items(
            keys@,
            values@,
            s0,
            xv,
            layers@,
            shape,
            width,
            eps,
            mp,
            i as nat,
        );
        proof {
            let all = seq![(hidden, hv)] + kv;
            assert(all[0] == (hidden, hv));
            assert(is_item(all[0], s3.fresh, s0.issued, s3.issued));
        }
        drop_temp(&mut be.ctx, hidden, Ghost(s0));
        proof {
            let all = seq![(hidden, hv)] + kv;
            lemma_owns_drop(s0, s3, be.state(), all, 0);
            assert(all.remove(0) =~= kv);
            lemma_dropped_stable(s3, be.state(), hidden);
            k3.lemma_stable(s3, be.state());
            if warm {
                lemma_quiet_then(c0, c3, be.ctx);
            }
        }
    } else {
        proof {
            let kv = kv_items(
                keys@,
                values@,
                s0,
                xv,
                layers@,
                shape,
                width,
                eps,
                mp,
                i as nat,
            );
            assert(Seq::<Item>::empty() + kv =~= kv);
        }
    }
    PrefixBuffers { keys, values }
}

/// The errors of the language layers. All but the last compute a hidden state.
pub open spec fn language_layer_errors(
    layers: Seq<Bf16DeviceLanguageLayer>,
    depth: usize,
) -> Seq<Option<ErrorView>> {
    Seq::new(layers.len(), |i: int| language_weights_error(layers[i], i + 1 < depth))
}

/// The buffers of the language layers.
pub open spec fn language_layer_buffers(
    layers: Seq<Bf16DeviceLanguageLayer>,
    depth: usize,
) -> Seq<LanguageBuffers> {
    Seq::new(layers.len(), |i: int| language_buffers(layers[i], i + 1 < depth))
}

/// Find the buffers of the language layers.
#[verifier::spinoff_prover]
#[verifier::rlimit(40)]
pub fn plan_language(layers: &Vec<Bf16DeviceLanguageLayer>, depth: usize) -> (r: Result<
    Vec<LanguageBuffers>,
    Error,
>)
    requires
        layers@.len() <= depth,
    ensures
        match r {
            Ok(b) => first_of(language_layer_errors(layers@, depth)) is None && b@
                == language_layer_buffers(layers@, depth),
            Err(e) => first_of(language_layer_errors(layers@, depth)) == Some(e@),
        },
{
    let ghost errors = language_layer_errors(layers@, depth);
    let mut out: Vec<LanguageBuffers> = Vec::new();
    let mut i: usize = 0;
    while i < layers.len()
        invariant
            i <= layers@.len(),
            layers@.len() <= depth,
            errors == language_layer_errors(layers@, depth),
            out@.len() == i,
            forall|j: int|
                0 <= j < i ==> #[trigger] out@[j] == language_buffers(layers@[j], j + 1 < depth),
            forall|j: int| 0 <= j < i ==> (#[trigger] errors[j]) is None,
        decreases layers@.len() - i,
    {
        match resolve_language(&layers[i], i + 1 < depth) {
            Ok(b) => {
                out.push(b);
            },
            Err(e) => {
                proof {
                    lemma_first_of(errors, i as int);
                }
                return Err(e);
            },
        }
        i = i + 1;
    }
    proof {
        lemma_first_of(errors, layers@.len() as int);
        assert(out@ =~= language_layer_buffers(layers@, depth));
    }
    Ok(out)
}

/// List the keys and values, values first.
pub(crate) fn list_prefix(prefix: &PrefixBuffers) -> (out: Vec<DeviceBuffer>)
    requires
        prefix.keys@.len() == prefix.values@.len(),
    ensures
        out@ == Seq::new(
            2 * prefix.keys@.len(),
            |j: int|
                if j % 2 == 0 {
                    prefix.values@[j / 2]
                } else {
                    prefix.keys@[j / 2]
                },
        ),
{
    let mut out: Vec<DeviceBuffer> = Vec::new();
    let mut i: usize = 0;
    while i < prefix.keys.len()
        invariant
            i <= prefix.keys@.len(),
            prefix.keys@.len() == prefix.values@.len(),
            out@.len() == 2 * i,
            forall|j: int|
                0 <= j < 2 * i ==> #[trigger] out@[j] == (if j % 2 == 0 {
                    prefix.values@[j / 2]
                } else {
                    prefix.keys@[j / 2]
                }),
        decreases prefix.keys@.len() - i,
    {
        out.push(prefix.values[i]);
        out.push(prefix.keys[i]);
        i = i + 1;
    }
    assert(out@ =~= Seq::new(
        2 * prefix.keys@.len(),
        |j: int|
            if j % 2 == 0 {
                prefix.values@[j / 2]
            } else {
                prefix.keys@[j / 2]
            },
    ));
    out
}

/// The layers are there in a later state too.
pub proof fn lemma_layers_same(
    layers: Seq<LanguageBuffers>,
    before: DeviceState,
    after: DeviceState,
    shape: AttentionShape,
    width: i64,
)
    requires
        before.sane(),
        keeps(before, after),
        forall|i: int|
            0 <= i < layers.len() ==> (#[trigger] layers[i]).weights_ready(before, shape, width),
        forall|b: DeviceBuffer| before.holds(b) && is_lasting(b) ==> #[trigger] after.holds(b),
        forall|b: DeviceBuffer|
            before.holds(b) && is_lasting(b) ==> #[trigger] after.value(b) == before.value(b),
    ensures
        forall|i: int|
            0 <= i < layers.len() ==> (#[trigger] layers[i]).weights_ready(after, shape, width),
{
    assert forall|i: int| 0 <= i < layers.len() implies (#[trigger] layers[i]).weights_ready(
        after,
        shape,
        width,
    ) by {
        layers[i].lemma_same(before, after, shape, width);
    }
}

/// The hidden states are the same in a later state.
proof fn lemma_hidden_same(
    layers: Seq<LanguageBuffers>,
    before: DeviceState,
    after: DeviceState,
    x: Seq<SymByte>,
    shape: AttentionShape,
    width: i64,
    eps: u32,
    max_pos: usize,
    n: nat,
)
    requires
        before.sane(),
        keeps(before, after),
        n <= layers.len(),
        forall|i: int|
            0 <= i < layers.len() ==> (#[trigger] layers[i]).weights_ready(before, shape, width),
        forall|b: DeviceBuffer| before.holds(b) && is_lasting(b) ==> #[trigger] after.holds(b),
        forall|b: DeviceBuffer|
            before.holds(b) && is_lasting(b) ==> #[trigger] after.value(b) == before.value(b),
    ensures
        language_hidden(after, x, layers, shape, width, eps, max_pos, n) == language_hidden(
            before,
            x,
            layers,
            shape,
            width,
            eps,
            max_pos,
            n,
        ),
    decreases n,
{
    if n > 0 {
        lemma_hidden_same(
            layers,
            before,
            after,
            x,
            shape,
            width,
            eps,
            max_pos,
            (n - 1) as nat,
        );
        let h = language_hidden(before, x, layers, shape, width, eps, max_pos, (n - 1) as nat);
        assert(layers[n - 1].weights_ready(before, shape, width));
        lemma_layer_same(layers[n - 1], before, after, h, shape, width, eps, max_pos);
    }
}

/// The keys and values of layer `i` are the same in a later state.
pub proof fn lemma_kv_at(
    layers: Seq<LanguageBuffers>,
    before: DeviceState,
    after: DeviceState,
    x: Seq<SymByte>,
    shape: AttentionShape,
    width: i64,
    eps: u32,
    max_pos: usize,
    i: int,
)
    requires
        before.sane(),
        keeps(before, after),
        0 <= i < layers.len(),
        forall|j: int|
            0 <= j < layers.len() ==> (#[trigger] layers[j]).weights_ready(before, shape, width),
        forall|b: DeviceBuffer| before.holds(b) && is_lasting(b) ==> #[trigger] after.holds(b),
        forall|b: DeviceBuffer|
            before.holds(b) && is_lasting(b) ==> #[trigger] after.value(b) == before.value(b),
    ensures
        prefix_keys(after, x, layers, shape, width, eps, max_pos, i) == prefix_keys(
            before,
            x,
            layers,
            shape,
            width,
            eps,
            max_pos,
            i,
        ),
        prefix_values(after, x, layers, shape, width, eps, max_pos, i) == prefix_values(
            before,
            x,
            layers,
            shape,
            width,
            eps,
            max_pos,
            i,
        ),
{
    lemma_hidden_same(layers, before, after, x, shape, width, eps, max_pos, i as nat);
    let h = language_hidden(before, x, layers, shape, width, eps, max_pos, i as nat);
    assert(layers[i].weights_ready(before, shape, width));
    lemma_layer_same(layers[i], before, after, h, shape, width, eps, max_pos);
}

/// Keys and values are the same in a later state.
pub proof fn lemma_kv_same(
    prefix: Prefix,
    before: DeviceState,
    after: DeviceState,
    x: Seq<SymByte>,
    layers: Seq<LanguageBuffers>,
    shape: AttentionShape,
    width: i64,
    eps: u32,
    max_pos: usize,
)
    requires
        before.sane(),
        keeps(before, after),
        forall|i: int|
            0 <= i < layers.len() ==> (#[trigger] layers[i]).weights_ready(before, shape, width),
        forall|b: DeviceBuffer| before.holds(b) && is_lasting(b) ==> #[trigger] after.holds(b),
        forall|b: DeviceBuffer|
            before.holds(b) && is_lasting(b) ==> #[trigger] after.value(b) == before.value(b),
    ensures
        kv_items(
            prefix.keys,
            prefix.values,
            after,
            x,
            layers,
            shape,
            width,
            eps,
            max_pos,
            layers.len(),
        ) == kv_items(
            prefix.keys,
            prefix.values,
            before,
            x,
            layers,
            shape,
            width,
            eps,
            max_pos,
            layers.len(),
        ),
{
    let a = kv_items(
        prefix.keys,
        prefix.values,
        after,
        x,
        layers,
        shape,
        width,
        eps,
        max_pos,
        layers.len(),
    );
    let b = kv_items(
        prefix.keys,
        prefix.values,
        before,
        x,
        layers,
        shape,
        width,
        eps,
        max_pos,
        layers.len(),
    );
    assert forall|j: int| 0 <= j < a.len() implies a[j] == b[j] by {
        let i = j / 2;
        assert(0 <= i < layers.len());
        lemma_kv_at(layers, before, after, x, shape, width, eps, max_pos, i);
    }
    assert(a =~= b);
}

} // verus!
