//! The vision tower.

use vstd::prelude::*;

use crate::backend::AscendBackend;
use crate::cache::{lemma_delivers_stable, stable};
use crate::capture::{lemma_quiet_then, quiet};
use crate::device::{Base, DeviceBuffer};
use crate::error::{first_error, first_of, lemma_first_of, Error, ErrorView};
use crate::executor::blocks::{linear_bias, linear_bias_value};
use crate::executor::caches::{caches_kept, weight_warm, AscendCaches};
use crate::executor::frame::{drop_temp, lemma_keeps_then, lemma_settled};
use crate::executor::linear::{is_bias, is_weight, optional_value};
use crate::executor::vision::{
    is_lasting_row, lemma_vision_warm, norm_value, patch_buffers, patch_embed, patch_shape, resolve_vision,
    vision_buffers, vision_layer, vision_shape, vision_weights_error, PatchBuffers, PatchShape,
    VisionBuffers, VisionShape,
};
use crate::model::{
    linear_buffers, linear_error, optional_buffer, tensor_buf, Bf16DeviceVisionBlock, Pi05Config,
    StaticBf16Pi05Weights,
};
use crate::ops::matmul::{aligned_rows, lemma_aligned};
use crate::semantics::{delivers, is_lasting, keeps, lemma_delivers, DeviceState, SymByte};
use crate::tensor::{fits, lemma_fits, lemma_fits_smaller};

verus! {

/// The buffers and sizes of the vision tower.
#[derive(Debug)]
pub struct VisionPlan {
    pub patch: PatchBuffers,
    pub patch_shape: PatchShape,
    pub layers: Vec<VisionBuffers>,
    pub shape: VisionShape,
    pub post_norm: DeviceBuffer,
    pub post_norm_bias: DeviceBuffer,
    pub projector: DeviceBuffer,
    pub projector_bias: Option<DeviceBuffer>,
    pub out_width: i64,
}

/// What a [`VisionPlan`] says.
pub struct VisionTower {
    pub patch: PatchBuffers,
    pub patch_shape: PatchShape,
    pub layers: Seq<VisionBuffers>,
    pub shape: VisionShape,
    pub post_norm: DeviceBuffer,
    pub post_norm_bias: DeviceBuffer,
    pub projector: DeviceBuffer,
    pub projector_bias: Option<DeviceBuffer>,
    pub out_width: i64,
}

impl View for VisionPlan {
    type V = VisionTower;

    open spec fn view(&self) -> VisionTower {
        VisionTower {
            patch: self.patch,
            patch_shape: self.patch_shape,
            layers: self.layers@,
            shape: self.shape,
            post_norm: self.post_norm,
            post_norm_bias: self.post_norm_bias,
            projector: self.projector,
            projector_bias: self.projector_bias,
            out_width: self.out_width,
        }
    }
}

/// The hidden state after the first `n` layers.
pub open spec fn vision_stack(
    st: DeviceState,
    x: Seq<SymByte>,
    layers: Seq<VisionBuffers>,
    shape: VisionShape,
    n: nat,
) -> Seq<SymByte>
    decreases n,
{
    if n == 0 {
        x
    } else {
        layers[n - 1].value(st, vision_stack(st, x, layers, shape, (n - 1) as nat), shape)
    }
}

impl VisionTower {
    /// Everything is there and fits together.
    pub open spec fn ready(self, st: DeviceState, patches: DeviceBuffer) -> bool {
        &&& self.patch.ready(st, patches, self.patch_shape)
        &&& self.shape.fits()
        &&& self.shape.tokens == self.patch_shape.tokens
        &&& self.shape.width == self.patch_shape.out_width
        &&& forall|i: int|
            0 <= i < self.layers.len() ==> (#[trigger] self.layers[i]).ready(st, self.shape)
        &&& is_lasting_row(st, self.post_norm, self.shape.width)
        &&& is_lasting_row(st, self.post_norm_bias, self.shape.width)
        &&& is_weight(st, self.projector, [self.shape.width, self.out_width])
        &&& fits(aligned_rows(self.shape.tokens), self.out_width)
        &&& is_bias(st, self.projector_bias, self.out_width)
    }

    /// The hidden state after the last layer.
    pub open spec fn hidden(self, st: DeviceState, patches: Seq<SymByte>) -> Seq<SymByte> {
        vision_stack(
            st,
            self.patch.value(st, patches, self.patch_shape),
            self.layers,
            self.shape,
            self.layers.len(),
        )
    }

    /// What the tower computes: patch embedding, layers, norm and projection.
    pub open spec fn value(self, st: DeviceState, patches: Seq<SymByte>) -> Seq<SymByte> {
        linear_bias_value(
            norm_value(
                self.hidden(st, patches),
                st.value(self.post_norm),
                st.value(self.post_norm_bias),
                self.shape.tokens,
                self.shape.width,
                self.shape.eps,
            ),
            self.shape.tokens,
            self.shape.width,
            st.value(self.projector),
            optional_value(st, self.projector_bias),
            self.out_width,
        )
    }

    /// Everything that the tower looks up is there already.
    pub open spec fn warm(self, be: AscendBackend, caches: AscendCaches) -> bool {
        &&& be.zeros_ready((self.shape.tokens * self.shape.width * 2) as usize)
        &&& self.patch.warm(caches, self.patch_shape)
        &&& forall|i: int|
            0 <= i < self.layers.len() ==> (#[trigger] self.layers[i]).warm(
                be,
                caches,
                self.shape,
            )
        &&& weight_warm(caches, self.projector, self.out_width)
    }

    /// The layers read the same in a later state.
    pub proof fn lemma_same(self, before: DeviceState, after: DeviceState, patches: DeviceBuffer)
        requires
            before.sane(),
            keeps(before, after),
            self.ready(before, patches),
            forall|b: DeviceBuffer| before.holds(b) && is_lasting(b) ==> #[trigger] after.holds(b),
            forall|b: DeviceBuffer|
                before.holds(b) && is_lasting(b) ==> #[trigger] after.value(b) == before.value(b),
        ensures
            self.ready(after, patches),
            forall|i: int, x: Seq<SymByte>|
                0 <= i < self.layers.len() ==> #[trigger] self.layers[i].value(
                    after,
                    x,
                    self.shape,
                ) == self.layers[i].value(before, x, self.shape),
            after.value(self.post_norm) == before.value(self.post_norm),
            after.value(self.post_norm_bias) == before.value(self.post_norm_bias),
            after.value(self.projector) == before.value(self.projector),
            optional_value(after, self.projector_bias) == optional_value(
                before,
                self.projector_bias,
            ),
    {
        lemma_settled(before, after);
        assert forall|i: int| 0 <= i < self.layers.len() implies (
        #[trigger] self.layers[i]).ready(after, self.shape) by {
            self.layers[i].lemma_same(before, after, self.shape);
        }
        assert forall|i: int, x: Seq<SymByte>| 0 <= i < self.layers.len() implies
            #[trigger] self.layers[i].value(after, x, self.shape) == self.layers[i].value(
            before,
            x,
            self.shape,
        ) by {
            self.layers[i].lemma_same(before, after, self.shape);
        }
    }
}

/// Run the embedding and the layers.
fn run_layers(
    be: &mut AscendBackend,
    caches: &mut AscendCaches,
    patches: &DeviceBuffer,
    plan: &VisionPlan,
) -> (out: DeviceBuffer)
    requires
        old(be).wf(),
        old(caches).wf(old(be).state()),
        plan@.ready(old(be).state(), *patches),
    ensures
        final(be).wf(),
        final(be).spec_device() == old(be).spec_device(),
        caches_kept(*old(caches), *final(caches), final(be).state()),
        final(caches).rope == old(caches).rope,
        out.len == plan.shape.tokens * plan.shape.width * 2,
        delivers(
            old(be).state(),
            final(be).state(),
            out,
            plan@.hidden(old(be).state(), old(be).state().value(*patches)),
        ),
        plan.patch.warm(*final(caches), plan.patch_shape),
        plan.layers@.len() > 0 ==> final(be).zeros_ready(
            (plan.shape.tokens * plan.shape.width * 2) as usize,
        ),
        forall|i: int|
            0 <= i < plan.layers@.len() ==> (#[trigger] plan.layers@[i]).warm(
                *final(be),
                *final(caches),
                plan.shape,
            ),
        plan@.warm(*old(be), *old(caches)) ==> {
            &&& quiet(old(be).ctx, final(be).ctx)
            &&& *final(caches) == *old(caches)
            &&& final(be).zeros_ready((plan.shape.tokens * plan.shape.width * 2) as usize)
        },
{
    let ghost c0 = be.ctx;
    let ghost s0 = be.state();
    let ghost k0 = *caches;
    let ghost warm = plan@.warm(*be, *caches);
    let ghost pv = s0.value(*patches);
    let ghost x0 = plan.patch.value(s0, pv, plan.patch_shape);
    let ghost zeros = (plan.shape.tokens * plan.shape.width * 2) as usize;
    proof {
        be.ctx.lemma_safe();
        lemma_aligned(plan.shape.tokens, plan.shape.width);
        lemma_fits_smaller(
            aligned_rows(plan.shape.tokens),
            plan.shape.width,
            plan.shape.tokens,
            plan.shape.width,
        );
        lemma_fits(plan.shape.tokens, plan.shape.width);
    }
    let mut hidden = patch_embed(be, caches, patches, plan.patch, plan.patch_shape);
    proof {
        be.ctx.lemma_safe();
        if warm {
            assert forall|j: int| 0 <= j < plan.layers@.len() implies (
            #[trigger] plan.layers@[j]).warm(*be, *caches, plan.shape) by {
                lemma_vision_warm(plan.layers@[j], k0, *caches, *be, plan.shape);
            }
        }
    }
    let mut i: usize = 0;
    while i < plan.layers.len()
        invariant
            i <= plan.layers@.len(),
            be.wf(),
            be.state().sane(),
            s0.sane(),
            be.spec_device() == old(be).spec_device(),
            caches_kept(k0, *caches, be.state()),
            caches.rope == k0.rope,
            plan@.ready(s0, *patches),
            zeros == (plan.shape.tokens * plan.shape.width * 2) as usize,
            fits(plan.shape.tokens, plan.shape.width),
            hidden.len == plan.shape.tokens * plan.shape.width * 2,
            delivers(
                s0,
                be.state(),
                hidden,
                vision_stack(s0, x0, plan.layers@, plan.shape, i as nat),
            ),
            plan.patch.warm(*caches, plan.patch_shape),
            i > 0 ==> be.zeros_ready(zeros),
            forall|j: int|
                0 <= j < i ==> (#[trigger] plan.layers@[j]).warm(*be, *caches, plan.shape),
            warm ==> plan@.warm(*be, *caches) && quiet(c0, be.ctx) && *caches == k0,
        decreases plan.layers@.len() - i,
    {
        let ghost s1 = be.state();
        let ghost c1 = be.ctx;
        let ghost k1 = *caches;
        let ghost xv = vision_stack(s0, x0, plan.layers@, plan.shape, i as nat);
        let w = plan.layers[i];
        proof {
            lemma_delivers(s0, s1, hidden, xv);
            plan@.lemma_same(s0, s1, *patches);
            assert(plan.layers@[i as int].ready(s1, plan.shape));
            lemma_fits(plan.shape.tokens, plan.shape.width);
        }
        let next = vision_layer(be, caches, &hidden, w, plan.shape);
        let ghost s2 = be.state();
        let ghost c2 = be.ctx;
        let ghost k2 = *caches;
        let ghost nv = vision_stack(s0, x0, plan.layers@, plan.shape, (i + 1) as nat);
        proof {
            be.ctx.lemma_safe();
            assert(nv == w.value(s1, xv, plan.shape));
        }
        drop_temp(&mut be.ctx, hidden, Ghost(s0));
        proof {
            let end = be.state();
            match next.base {
                Base::Fresh(id) => {
                    assert(end.fresh =~= s0.fresh.insert(id, nv));
                },
                _ => {},
            }
            be.ctx.lemma_safe();
            assert(stable(s2, end));
            k2.lemma_stable(s2, end);
            lemma_keeps_then(s0, s1, s2);
            assert forall|j: int| 0 <= j < i + 1 implies (#[trigger] plan.layers@[j]).warm(
                *be,
                *caches,
                plan.shape,
            ) by {
                if j < i {
                    lemma_vision_warm(plan.layers@[j], k1, *caches, *be, plan.shape);
                }
            }
            if warm {
                lemma_quiet_then(c1, c2, be.ctx);
                lemma_quiet_then(c0, c1, be.ctx);
                assert forall|j: int| 0 <= j < plan.layers@.len() implies (
                #[trigger] plan.layers@[j]).warm(*be, *caches, plan.shape) by {
                    lemma_vision_warm(plan.layers@[j], k1, *caches, *be, plan.shape);
                }
            }
        }
        hidden = next;
        i = i + 1;
    }
    hidden
}

/// Run the tower.
pub fn run_vision(
    be: &mut AscendBackend,
    caches: &mut AscendCaches,
    patches: &DeviceBuffer,
    plan: &VisionPlan,
) -> (out: DeviceBuffer)
    requires
        old(be).wf(),
        old(caches).wf(old(be).state()),
        plan@.ready(old(be).state(), *patches),
    ensures
        final(be).wf(),
        final(be).spec_device() == old(be).spec_device(),
        caches_kept(*old(caches), *final(caches), final(be).state()),
        final(caches).rope == old(caches).rope,
        out.len == plan.shape.tokens * plan.out_width * 2,
        fits(plan.shape.tokens, plan.out_width),
        delivers(
            old(be).state(),
            final(be).state(),
            out,
            plan@.value(old(be).state(), old(be).state().value(*patches)),
        ),
        plan@.warm(*final(be), *final(caches)),
        plan@.warm(*old(be), *old(caches)) ==> quiet(old(be).ctx, final(be).ctx)
            && *final(caches) == *old(caches),
{
    let ghost c0 = be.ctx;
    let ghost s0 = be.state();
    let ghost warm = plan@.warm(*be, *caches);
    let ghost pv = s0.value(*patches);
    let ghost hv = plan@.hidden(s0, pv);
    let tokens: i64 = plan.shape.tokens;
    let width: i64 = plan.shape.width;
    proof {
        be.ctx.lemma_safe();
        lemma_aligned(tokens, width);
        lemma_fits_smaller(aligned_rows(tokens), width, tokens, width);
        lemma_fits(tokens, width);
    }
    let hidden = run_layers(be, caches, patches, plan);
    let ghost c1 = be.ctx;
    let ghost s1 = be.state();
    let ghost k1 = *caches;
    proof {
        be.ctx.lemma_safe();
        lemma_delivers(s0, s1, hidden, hv);
        plan@.lemma_same(s0, s1, *patches);
    }
    let normed = be.layer_norm_rows(
        &hidden,
        &plan.post_norm,
        &plan.post_norm_bias,
        tokens,
        width,
        plan.shape.eps,
    );
    let ghost c2 = be.ctx;
    let ghost s2 = be.state();
    let ghost nv = norm_value(
        hv,
        s0.value(plan.post_norm),
        s0.value(plan.post_norm_bias),
        tokens,
        width,
        plan.shape.eps,
    );
    proof {
        be.ctx.lemma_safe();
        lemma_delivers(s1, s2, normed, nv);
        lemma_delivers_stable(s1, s2, normed, nv);
        k1.lemma_stable(s1, s2);
        plan@.lemma_same(s1, s2, *patches);
    }
    let out = linear_bias(
        &mut be.ctx,
        caches,
        &normed,
        tokens,
        width,
        &plan.projector,
        plan.projector_bias,
        plan.out_width,
    );
    let ghost c3 = be.ctx;
    let ghost s3 = be.state();
    let ghost k3 = *caches;
    drop_temp(&mut be.ctx, normed, Ghost(s0));
    let ghost c4 = be.ctx;
    drop_temp(&mut be.ctx, hidden, Ghost(s0));
    proof {
        let end = be.state();
        match out.base {
            Base::Fresh(id) => {
                assert(end.fresh =~= s0.fresh.insert(id, plan@.value(s0, pv)));
            },
            _ => {},
        }
        assert(stable(s3, end));
        k3.lemma_stable(s3, end);
        lemma_quiet_then(c3, c4, be.ctx);
        assert forall|j: int| 0 <= j < plan.layers@.len() implies (#[trigger] plan.layers@[j]).warm(
            *be,
            *caches,
            plan.shape,
        ) by {
            assert(plan.layers@[j].warm(*be, k1, plan.shape));
            lemma_vision_warm(plan.layers@[j], k1, *caches, *be, plan.shape);
        }
        if warm {
            lemma_quiet_then(c0, c1, c2);
            lemma_quiet_then(c0, c2, c3);
            lemma_quiet_then(c0, c3, be.ctx);
        }
    }
    out
}

/// The errors of the vision layers.
pub open spec fn vision_layer_errors(layers: Seq<Bf16DeviceVisionBlock>) -> Seq<
    Option<ErrorView>,
> {
    Seq::new(layers.len(), |i: int| vision_weights_error(layers[i]))
}

/// The buffers of the vision layers.
pub open spec fn vision_layer_buffers(layers: Seq<Bf16DeviceVisionBlock>) -> Seq<VisionBuffers> {
    Seq::new(layers.len(), |i: int| vision_buffers(layers[i]))
}

/// What is wrong with the weights of the vision tower.
pub open spec fn vision_tower_error(w: StaticBf16Pi05Weights) -> Option<ErrorView> {
    first_error(
        linear_error(w.patch_embedding),
        first_error(
            w.position_embedding@.residency_error(),
            first_error(
                first_of(vision_layer_errors(w.vision_layers@)),
                first_error(
                    w.vision_post_norm.weight@.residency_error(),
                    first_error(
                        w.vision_post_norm.bias@.residency_error(),
                        linear_error(w.multimodal_projector),
                    ),
                ),
            ),
        ),
    )
}

/// The weights have the axes that the tower takes its sizes from.
pub open spec fn vision_axes(config: Pi05Config, w: StaticBf16Pi05Weights) -> bool {
    &&& config.patches_fit()
    &&& config.spec_patches_per_view() <= i64::MAX
    &&& config.vision_heads <= i64::MAX
    &&& config.vision_head_dim <= i64::MAX
    &&& w.patch_embedding.weight@.dims.len() >= 2
    &&& w.patch_embedding.weight@.dims[1] <= i64::MAX
    &&& w.multimodal_projector.weight@.dims.len() >= 2
    &&& w.multimodal_projector.weight@.dims[1] <= i64::MAX
}

/// The vision tower for `[tokens, in_width]` patches.
pub open spec fn vision_tower(
    config: Pi05Config,
    w: StaticBf16Pi05Weights,
    tokens: usize,
    in_width: usize,
) -> VisionTower {
    let width = w.patch_embedding.weight@.dims[1];
    let per_view = config.spec_patches_per_view() as usize;
    VisionTower {
        patch: patch_buffers(w.patch_embedding, w.position_embedding),
        patch_shape: patch_shape(
            seq![tokens, in_width],
            w.patch_embedding.weight@.dims,
            per_view,
        ),
        layers: vision_layer_buffers(w.vision_layers@),
        shape: vision_shape(
            seq![tokens, width],
            per_view,
            config.vision_heads,
            config.vision_head_dim,
            config.layer_norm_eps,
        ),
        post_norm: w.vision_post_norm.weight@.on_device(),
        post_norm_bias: w.vision_post_norm.bias@.on_device(),
        projector: w.multimodal_projector.weight@.on_device(),
        projector_bias: optional_buffer(w.multimodal_projector.bias),
        out_width: w.multimodal_projector.weight@.dims[1] as i64,
    }
}

/// Find the buffers of the vision layers.
fn resolve_layers(layers: &Vec<Bf16DeviceVisionBlock>) -> (r: Result<Vec<VisionBuffers>, Error>)
    ensures
        match r {
            Ok(b) => first_of(vision_layer_errors(layers@)) is None && b@ == vision_layer_buffers(
                layers@,
            ),
            Err(e) => first_of(vision_layer_errors(layers@)) == Some(e@),
        },
{
    let ghost errors = vision_layer_errors(layers@);
    let mut out: Vec<VisionBuffers> = Vec::new();
    let mut i: usize = 0;
    while i < layers.len()
        invariant
            i <= layers@.len(),
            errors == vision_layer_errors(layers@),
            out@.len() == i,
            forall|j: int| 0 <= j < i ==> #[trigger] out@[j] == vision_buffers(layers@[j]),
            forall|j: int| 0 <= j < i ==> (#[trigger] errors[j]) is None,
        decreases layers@.len() - i,
    {
        match resolve_vision(&layers[i]) {
            Ok(b) => {
                out.push(b);
            },
            Err(e) => {
                proof {
                    lemma_first_of(errors, i as int);
                }
                return Err(e);
            },
        }
        i = i + 1;
    }
    proof {
        lemma_first_of(errors, layers@.len() as int);
        assert(out@ =~= vision_layer_buffers(layers@));
    }
    Ok(out)
}

/// Find the buffers and sizes of the vision tower for `[tokens, in_width]` patches.
pub fn plan_vision(
    config: &Pi05Config,
    w: &StaticBf16Pi05Weights,
    tokens: usize,
    in_width: usize,
) -> (r: Result<VisionPlan, Error>)
    requires
        tokens <= i64::MAX,
        in_width <= i64::MAX,
        vision_axes(*config, *w),
    ensures
        match r {
            Ok(plan) => vision_tower_error(*w) is None && plan@ == vision_tower(
                *config,
                *w,
                tokens,
                in_width,
            ),
            Err(e) => vision_tower_error(*w) == Some(e@),
        },
{
    let (weight, bias) = linear_buffers(&w.patch_embedding)?;
    let positions = tensor_buf(&w.position_embedding)?;
    let layers = resolve_layers(&w.vision_layers)?;
    let post_norm = tensor_buf(&w.vision_post_norm.weight)?;
    let post_norm_bias = tensor_buf(&w.vision_post_norm.bias)?;
    let (projector, projector_bias) = linear_buffers(&w.multimodal_projector)?;
    let per_view: i64 = config.patches_per_view() as i64;
    let width: i64 = w.patch_embedding.weight.dims[1] as i64;
    Ok(
        VisionPlan {
            patch: PatchBuffers { weight, bias, positions },
            patch_shape: PatchShape {
                tokens: tokens as i64,
                in_width: in_width as i64,
                out_width: width,
                per_view,
            },
            layers,
            shape: VisionShape {
                tokens: tokens as i64,
                width,
                per_view,
                heads: config.vision_heads as i64,
                head_dim: config.vision_head_dim as i64,
                eps: config.layer_norm_eps,
            },
            post_norm,
            post_norm_bias,
            projector,
            projector_bias,
            out_width: w.multimodal_projector.weight.dims[1] as i64,
        },
    )
}

proof fn lemma_stack_same(
    tower: VisionTower,
    before: DeviceState,
    after: DeviceState,
    x: Seq<SymByte>,
    n: nat,
)
    requires
        n <= tower.layers.len(),
        forall|i: int, y: Seq<SymByte>|
            0 <= i < tower.layers.len() ==> #[trigger] tower.layers[i].value(
                after,
                y,
                tower.shape,
            ) == tower.layers[i].value(before, y, tower.shape),
    ensures
        vision_stack(after, x, tower.layers, tower.shape, n) == vision_stack(
            before,
            x,
            tower.layers,
            tower.shape,
            n,
        ),
    decreases n,
{
    if n > 0 {
        lemma_stack_same(tower, before, after, x, (n - 1) as nat);
        let h = vision_stack(before, x, tower.layers, tower.shape, (n - 1) as nat);
        assert(tower.layers[n - 1].value(after, h, tower.shape) == tower.layers[n - 1].value(
            before,
            h,
            tower.shape,
        ));
    }
}

/// The tower computes the same in a later state.
pub proof fn lemma_tower_same(
    tower: VisionTower,
    before: DeviceState,
    after: DeviceState,
    patches: DeviceBuffer,
    x: Seq<SymByte>,
)
    requires
        before.sane(),
        keeps(before, after),
        tower.ready(before, patches),
        forall|b: DeviceBuffer| before.holds(b) && is_lasting(b) ==> #[trigger] after.holds(b),
        forall|b: DeviceBuffer|
            before.holds(b) && is_lasting(b) ==> #[trigger] after.value(b) == before.value(b),
    ensures
        tower.ready(after, patches),
        tower.value(after, x) == tower.value(before, x),
{
    tower.lemma_same(before, after, patches);
    assert(after.value(tower.patch.weight) == before.value(tower.patch.weight));
    assert(optional_value(after, tower.patch.bias) == optional_value(before, tower.patch.bias));
    assert(after.value(tower.patch.positions) == before.value(tower.patch.positions));
    let e = tower.patch.value(before, x, tower.patch_shape);
    assert(tower.patch.value(after, x, tower.patch_shape) == e);
    lemma_stack_same(tower, before, after, e, tower.layers.len());
}

} // verus!
