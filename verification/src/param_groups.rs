//! Ranges of the flat parameter vector that are treated alike.
//!
//! Learning-rate scales and weight decay are set per layer and for the decoder.
//! The telemetry splits gradient norms in the same places.

use vstd::prelude::*;
use crate::wave_decode;
use crate::wave_model::{
    blocks_flat, lemma_blocks_flat_step, WaveBlockWeights, WavePacketModel,
};

verus! {

/// Where the groups of a parameter vector lie.
#[derive(Clone, Copy, Debug)]
pub struct GroupLayout {
    pub n_layers: usize,
    pub block_total: usize,
    pub head_start: usize,
}

/// The group of a parameter.
#[derive(Clone, Copy, Debug, PartialEq, Eq, Structural)]
pub enum ParamGroup {
    /// A parameter of the given layer.
    Layer(usize),
    /// A layer scale or a parameter of the final normalisation.
    Shared,
    /// A parameter of the decoder.
    Head,
}

/// Parameters of one block as the groups count them: sizes are taken from the
/// first block, the bottleneck width is given.
pub open spec fn spec_block_total<T>(
    model: WavePacketModel<T>,
    n_embd: int,
    maestro_dim: int,
    rk4_weights: bool,
) -> int {
    model.blocks@[0].len(n_embd, maestro_dim, model.learnable_ode) + (if model.learnable_ode
        && rk4_weights {
        4int
    } else {
        0
    })
}

/// Layer scales that are trained.
pub open spec fn spec_scale_count<T>(model: WavePacketModel<T>) -> int {
    if model.use_layer_scale {
        model.blocks@.len() as int
    } else {
        0
    }
}

/// The groups of a model's parameters. `rk4_weights` tells whether each block
/// carries four integration weights behind its ODE parameters.
pub fn group_layout<T>(
    model: &WavePacketModel<T>,
    n_embd: usize,
    maestro_dim: usize,
    rk4_weights: bool,
) -> (layout: GroupLayout)
    requires
        model.blocks@.len() > 0,
        model.blocks@[0].ffn.out_proj.wf(),
        model.blocks@.len() * spec_block_total(
            *model,
            n_embd as int,
            maestro_dim as int,
            rk4_weights,
        ) + model.blocks@.len() + n_embd * 2 <= usize::MAX,
    ensures
        layout.n_layers == model.blocks@.len(),
        layout.block_total == spec_block_total(
            *model,
            n_embd as int,
            maestro_dim as int,
            rk4_weights,
        ),
        layout.head_start == layout.n_layers * layout.block_total + spec_scale_count(*model)
            + n_embd * 2,
{
    let n_layers: usize = model.blocks.len();
    let block = &model.blocks[0];
    let ghost total = spec_block_total(*model, n_embd as int, maestro_dim as int, rk4_weights);
    proof {
        block.ffn.out_proj.lemma_flat_len();
        assert(maestro_dim * n_embd >= 0 && n_embd * maestro_dim >= 0) by (nonlinear_arith);
        assert(total <= n_layers * total) by (nonlinear_arith)
            requires
                n_layers >= 1,
                total >= 0,
        ;
    }
    let per_block: usize = n_embd * 4 + maestro_dim * n_embd + maestro_dim + n_embd * maestro_dim
        + n_embd + maestro_dim * n_embd + maestro_dim + n_embd * maestro_dim + n_embd
        + block.ffn.out_proj.param_count();
    let ode_per: usize = if model.learnable_ode {
        let rk4: usize = if rk4_weights {
            4
        } else {
            0
        };
        block.ffn.kerr.gamma_raw.len() + 1 + 1 + block.ffn.kerr.phase_correction.len() + rk4
    } else {
        0
    };
    let block_total: usize = per_block + ode_per;
    let ls_count: usize = if model.use_layer_scale {
        n_layers
    } else {
        0
    };
    GroupLayout {
        n_layers,
        block_total,
        head_start: n_layers * block_total + ls_count + n_embd * 2,
    }
}

impl GroupLayout {
    /// The group of the parameter at index `i`.
    pub open spec fn spec_group_at(&self, i: int) -> ParamGroup {
        if 0 <= i < self.n_layers * self.block_total {
            ParamGroup::Layer((i / (self.block_total as int)) as usize)
        } else if i < self.head_start {
            ParamGroup::Shared
        } else {
            ParamGroup::Head
        }
    }

    /// The blocks end before the head starts.
    pub open spec fn wf(&self) -> bool {
        self.n_layers * self.block_total <= self.head_start
    }

    /// The group of the parameter at index `i`.
    pub fn group_at(&self, i: usize) -> (group: ParamGroup)
        requires
            self.wf(),
        ensures
            group == self.spec_group_at(i as int),
    {
        assert(0 <= self.n_layers * self.block_total) by (nonlinear_arith);
        if i < self.n_layers * self.block_total {
            assert(self.block_total != 0) by (nonlinear_arith)
                requires
                    i < self.n_layers * self.block_total,
                    0 <= i,
            ;
            ParamGroup::Layer(i / self.block_total)
        } else if i < self.head_start {
            ParamGroup::Shared
        } else {
            ParamGroup::Head
        }
    }

    /// First index of layer `l` and the index past its last one, cut off at the
    /// length of the vector.
    pub fn layer_range(&self, l: usize, len: usize) -> (range: (usize, usize))
        requires
            self.wf(),
            l < self.n_layers,
        ensures
            range.0 == l * self.block_total,
            range.1 == (if (l + 1) * self.block_total <= len {
                (l + 1) * self.block_total
            } else {
                len as int
            }),
    {
        assert((l + 1) * self.block_total == l * self.block_total + self.block_total)
            by (nonlinear_arith);
        assert((l + 1) * self.block_total <= self.n_layers * self.block_total)
            by (nonlinear_arith)
            requires
                l + 1 <= self.n_layers,
        ;
        assert(0 <= l * self.block_total) by (nonlinear_arith);
        let start: usize = l * self.block_total;
        let end: usize = start + self.block_total;
        if end <= len {
            (start, end)
        } else {
            (start, len)
        }
    }
}

/// The layer of a parameter is one of the layers.
pub proof fn lemma_layer_in_range(layout: GroupLayout, i: int)
    requires
        0 <= i < layout.n_layers * layout.block_total,
    ensures
        layout.spec_group_at(i) matches ParamGroup::Layer(l) && l < layout.n_layers,
{
    let t = layout.block_total as int;
    let n = layout.n_layers as int;
    assert(t > 0) by (nonlinear_arith)
        requires
            0 <= i < n * t,
            t >= 0,
    ;
    vstd::arithmetic::div_mod::lemma_fundamental_div_mod(i, t);
    let q = i / t;
    assert(0 <= q < n) by (nonlinear_arith)
        requires
            i == t * q + i % t,
            0 <= i % t < t,
            0 <= i < n * t,
    ;
}

/// Index `i` lies in layer `l` exactly when the group says so.
pub proof fn law_group_is_layer_range(layout: GroupLayout, i: int, l: usize)
    requires
        layout.wf(),
        0 <= i,
        l < layout.n_layers,
    ensures
        layout.spec_group_at(i) == ParamGroup::Layer(l) <==> l * layout.block_total <= i < (l + 1)
            * layout.block_total,
{
    let t = layout.block_total as int;
    let n = layout.n_layers as int;
    assert((l + 1) * t <= n * t) by (nonlinear_arith)
        requires
            l + 1 <= n,
            t >= 0,
    ;
    if i < n * t {
        assert(t > 0) by (nonlinear_arith)
            requires
                0 <= i < n * t,
                t >= 0,
        ;
        let q = i / t;
        vstd::arithmetic::div_mod::lemma_fundamental_div_mod(i, t);
        assert(0 <= q < n) by (nonlinear_arith)
            requires
                i == t * q + i % t,
                0 <= i % t < t,
                0 <= i < n * t,
        ;
        assert(q * t <= i < (q + 1) * t) by (nonlinear_arith)
            requires
                i == t * q + i % t,
                0 <= i % t < t,
        ;
        if l * t <= i < (l + 1) * t {
            assert(q == l) by (nonlinear_arith)
                requires
                    l * t <= i < (l + 1) * t,
                    q * t <= i < (q + 1) * t,
                    t > 0,
            ;
        }
    }
}

/// All blocks have as many parameters as the first one.
pub open spec fn uniform_blocks<T>(model: WavePacketModel<T>) -> bool {
    forall|b: int|
        0 <= b < model.blocks@.len() ==> (#[trigger] model.blocks@[b]).len(
            model.n_embd(),
            model.maestro_dim(),
            model.learnable_ode,
        ) == model.blocks@[0].len(model.n_embd(), model.maestro_dim(), model.learnable_ode)
}

proof fn lemma_uniform_prefix<T>(model: WavePacketModel<T>, tied: bool, n: int)
    requires
        model.wf(tied),
        uniform_blocks(model),
        0 <= n <= model.blocks@.len(),
    ensures
        blocks_flat(model.blocks@.subrange(0, n), model.learnable_ode).len() == n
            * model.blocks@[0].len(model.n_embd(), model.maestro_dim(), model.learnable_ode),
    decreases n,
{
    let each = model.blocks@[0].len(model.n_embd(), model.maestro_dim(), model.learnable_ode);
    if n > 0 {
        lemma_uniform_prefix(model, tied, n - 1);
        lemma_blocks_flat_step(model.blocks@, model.learnable_ode, n - 1);
        let block: WaveBlockWeights<T> = model.blocks@[n - 1];
        block.lemma_flat_len(model.n_embd(), model.maestro_dim(), model.learnable_ode);
        assert(n * each == (n - 1) * each + each) by (nonlinear_arith);
    } else {
        assert(0 * each == 0) by (nonlinear_arith);
    }
}

/// The groups follow the flat layout: in a model of uniform blocks with one
/// layer scale per layer, layer `l` of the groups is block `l` of the vector and
/// the head of the groups is the decoder.
pub proof fn law_groups_follow_layout<T>(
    model: WavePacketModel<T>,
    tied: bool,
    layout: GroupLayout,
    l: int,
)
    requires
        model.wf(tied),
        uniform_blocks(model),
        model.layer_scale@.len() == model.blocks@.len(),
        layout.n_layers == model.blocks@.len(),
        layout.block_total == spec_block_total(
            model,
            model.n_embd(),
            model.maestro_dim(),
            false,
        ),
        layout.head_start == layout.n_layers * layout.block_total + spec_scale_count(model)
            + model.n_embd() * 2,
        0 <= l < model.blocks@.len(),
    ensures
        layout.wf(),
        l * layout.block_total == blocks_flat(
            model.blocks@.subrange(0, l),
            model.learnable_ode,
        ).len(),
        (l + 1) * layout.block_total == blocks_flat(
            model.blocks@.subrange(0, l + 1),
            model.learnable_ode,
        ).len(),
        layout.head_start == model.flat(tied).len() - model.decoder_flat(tied).len(),
{
    lemma_uniform_prefix(model, tied, l);
    lemma_uniform_prefix(model, tied, l + 1);
    lemma_uniform_prefix(model, tied, model.blocks@.len() as int);
    assert(model.blocks@.subrange(0, model.blocks@.len() as int) =~= model.blocks@);
}

/// Index of the first decoder parameter of a model with a full head, or the
/// start of the vector if the head is larger than it.
pub fn lm_start(n_trainable: usize, vocab_size: usize, n_embd: usize) -> (start: usize)
    requires
        vocab_size * n_embd <= usize::MAX,
    ensures
        start == (if vocab_size * n_embd <= n_trainable {
            n_trainable - vocab_size * n_embd
        } else {
            0
        }),
{
    let size: usize = vocab_size * n_embd;
    if size <= n_trainable {
        n_trainable - size
    } else {
        0
    }
}

/// Parameters of the decoder whose gradients the learning-rate floor boosts.
pub open spec fn spec_boosted_len<T>(model: WavePacketModel<T>) -> int {
    if model.lm_rank > 0 {
        model.lm_rank * model.n_embd() + model.vocab_size * model.lm_rank
    } else if let Some(wds) = model.wd_state {
        wds.spec_param_count()
    } else {
        model.vocab_size * model.n_embd()
    }
}

/// Index from which the learning-rate floor boosts gradients.
pub fn boost_start<T>(model: &WavePacketModel<T>, n_trainable: usize) -> (start: usize)
    requires
        spec_boosted_len(*model) <= usize::MAX,
        model.wd_state matches Some(wds) ==> wds.wf(),
    ensures
        start == (if spec_boosted_len(*model) <= n_trainable {
            n_trainable - spec_boosted_len(*model)
        } else {
            0
        }),
{
    let n_embd: usize = model.ln_f.weight.len();
    let size: usize = if model.lm_rank > 0 {
        let rank: usize = model.lm_rank;
        let vocab: usize = model.vocab_size;
        assert(rank * n_embd >= 0 && vocab * rank >= 0) by (nonlinear_arith);
        rank * n_embd + vocab * rank
    } else if let Some(wds) = &model.wd_state {
        wave_decode::param_count(wds)
    } else {
        model.vocab_size * n_embd
    };
    if size <= n_trainable {
        n_trainable - size
    } else {
        0
    }
}

/// For a model that decodes through a low-rank, wave or untied full head, the
/// boosted gradients are exactly those of the decoder.
pub proof fn law_boost_covers_decoder<T>(model: WavePacketModel<T>)
    requires
        model.wf(false),
        !model.phase_native,
        model.lm_rank == 0 || model.wd_state is None,
    ensures
        spec_boosted_len(model) == model.decoder_flat(false).len(),
        spec_boosted_len(model) <= model.flat(false).len(),
{
    model.lemma_decoder_len(false);
}

/// The part of the gradient vector that the telemetry attributes to layer `l`:
/// the first `lm_start` entries are shared out evenly, any rest is left over.
pub fn telemetry_layer_range(lm_start: usize, n_layers: usize, l: usize) -> (range: (usize, usize))
    requires
        l < n_layers,
    ensures
        range.0 == l * (lm_start / n_layers),
        range.1 == (l + 1) * (lm_start / n_layers),
        range.0 <= range.1 <= lm_start,
{
    let per_layer: usize = lm_start / n_layers;
    assert((l + 1) * per_layer == l * per_layer + per_layer) by (nonlinear_arith);
    assert((l + 1) * per_layer <= n_layers * per_layer) by (nonlinear_arith)
        requires
            l + 1 <= n_layers,
    ;
    assert(n_layers * per_layer <= lm_start) by {
        vstd::arithmetic::div_mod::lemma_fundamental_div_mod(lm_start as int, n_layers as int);
    }
    assert(0 <= l * per_layer) by (nonlinear_arith);
    let start: usize = l * per_layer;
    (start, start + per_layer)
}

/// The layers that the telemetry reports do not overlap.
pub proof fn law_telemetry_layers_disjoint(lm_start: int, n_layers: int, a: int, b: int)
    requires
        0 <= lm_start,
        0 <= a < b < n_layers,
    ensures
        (a + 1) * (lm_start / n_layers) <= b * (lm_start / n_layers),
{
    let per = lm_start / n_layers;
    vstd::arithmetic::div_mod::lemma_div_pos_is_pos(lm_start, n_layers);
    assert((a + 1) * per <= b * per) by (nonlinear_arith)
        requires
            a + 1 <= b,
            per >= 0,
    ;
}

} // verus!
