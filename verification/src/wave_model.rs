//! The trainable wave model: its parameters and their flat layout.
//!
//! The optimiser works on one flat vector. This module fixes where each
//! parameter stands in it: block by block, then the layer scales, the final
//! normalisation and whatever decodes the hidden state into tokens.

use vstd::prelude::*;
use crate::arith::{Arith, Test, Traced, pick_on};
#[allow(unused_imports)]
use crate::arith::{Expr, fits, one, pick, val, zero};
use crate::regulation::clamped_on;
#[allow(unused_imports)]
use crate::regulation::clamped;
use crate::seqs::{extend_from, extend_rows, take, take_rows};
use crate::seqs::{lemma_rows_flat_len, rows_flat, rows_width};
use crate::wave_decode::{self, WaveDecodeState};
use crate::wave_score::refresh_cos_sin_cache;
#[allow(unused_imports)]
use crate::wave_score::tables_of_phases;
use crate::weights::{KerrDualMaestroWeights, LayerNormWeights, LinearWeights, MaestroWeights};
#[allow(unused_imports)]
use crate::weights::KerrWeights;

verus! {

/// One attention head: a harmonic, a phase projection and a value projection.
pub struct WaveAttnHeadWeights<T> {
    pub harmonic_raw: T,
    pub phase_proj_w: Vec<Vec<T>>,
    pub phase_proj_b: Vec<T>,
    pub v_proj_w: Vec<Vec<T>>,
    pub v_proj_b: Vec<T>,
}

/// Frozen attention of one block.
pub struct WaveAttnWeights<T> {
    pub heads: Vec<WaveAttnHeadWeights<T>>,
    pub out_proj_w: Vec<Vec<T>>,
    pub out_proj_b: Vec<T>,
}

/// One block: attention and feed-forward side by side.
pub struct WaveBlockWeights<T> {
    pub ln: LayerNormWeights<T>,
    pub ln_ffn: LayerNormWeights<T>,
    pub attn: WaveAttnWeights<T>,
    pub ffn: KerrDualMaestroWeights<T>,
}

/// The whole model.
pub struct WavePacketModel<T> {
    pub wte: Vec<Vec<T>>,
    pub wpe: Vec<Vec<T>>,
    pub blocks: Vec<WaveBlockWeights<T>>,
    pub ln_f: LayerNormWeights<T>,
    pub lm_head: Vec<Vec<T>>,
    pub lm_down: Vec<Vec<T>>,
    pub lm_up: Vec<Vec<T>>,
    pub lm_rank: usize,
    pub vocab_size: usize,
    pub tied_temperature: T,
    pub wd_state: Option<WaveDecodeState<T>>,
    pub learnable_ode: bool,
    pub layer_scale: Vec<T>,
    pub use_layer_scale: bool,
    pub lr_scale: Vec<T>,
    pub use_lr_scale: bool,
    pub phase_native: bool,
    pub output_corrector: Vec<T>,
}

/// A regulator has the given bottleneck between two embeddings.
pub open spec fn maestro_shaped<T>(m: MaestroWeights<T>, n_embd: int, maestro_dim: int) -> bool {
    &&& m.squeeze.shaped(maestro_dim, n_embd)
    &&& m.process_1.shaped(n_embd, maestro_dim)
}

/// A regulator in flat order: squeeze, then projection.
pub open spec fn maestro_flat<T>(m: MaestroWeights<T>) -> Seq<T> {
    m.squeeze.flat() + m.process_1.flat()
}

/// Number of parameters of one regulator.
pub open spec fn maestro_len(n_embd: int, maestro_dim: int) -> int {
    (maestro_dim * n_embd + maestro_dim) + (n_embd * maestro_dim + n_embd)
}

impl<T> WaveBlockWeights<T> {
    /// The trained parameters have the model's dimensions.
    pub open spec fn wf(&self, n_embd: int, maestro_dim: int) -> bool {
        &&& self.ln.weight@.len() == n_embd
        &&& self.ln.bias@.len() == n_embd
        &&& self.ln_ffn.weight@.len() == n_embd
        &&& self.ln_ffn.bias@.len() == n_embd
        &&& maestro_shaped(self.ffn.maestro_in, n_embd, maestro_dim)
        &&& maestro_shaped(self.ffn.maestro_out, n_embd, maestro_dim)
        &&& self.ffn.out_proj.wf()
    }

    /// The four normalisation vectors in flat order.
    pub open spec fn norms_flat(&self) -> Seq<T> {
        self.ln.weight@ + self.ln.bias@ + self.ln_ffn.weight@ + self.ln_ffn.bias@
    }

    /// The ODE parameters in flat order, if they are trained.
    pub open spec fn ode_flat(&self, learnable_ode: bool) -> Seq<T> {
        if learnable_ode {
            self.ffn.kerr.gamma_raw@ + seq![self.ffn.kerr.alpha, self.ffn.kerr.beta]
                + self.ffn.kerr.phase_correction@
        } else {
            Seq::empty()
        }
    }

    /// The trained parameters of the block in flat order.
    #[verifier::opaque]
    pub open spec fn flat(&self, learnable_ode: bool) -> Seq<T> {
        self.norms_flat() + maestro_flat(self.ffn.maestro_in) + maestro_flat(
            self.ffn.maestro_out,
        ) + self.ffn.out_proj.flat() + self.ode_flat(learnable_ode)
    }

    /// Number of ODE parameters of the block, if they are trained.
    pub open spec fn ode_len(&self, learnable_ode: bool) -> int {
        if learnable_ode {
            (self.ffn.kerr.gamma_raw@.len() + 1 + 1 + self.ffn.kerr.phase_correction@.len()) as int
        } else {
            0
        }
    }

    /// Number of trained parameters of the block.
    pub open spec fn len(&self, n_embd: int, maestro_dim: int, learnable_ode: bool) -> int {
        n_embd * 2 + n_embd * 2 + maestro_len(n_embd, maestro_dim) + maestro_len(
            n_embd,
            maestro_dim,
        ) + self.ffn.out_proj.spec_param_count() + self.ode_len(learnable_ode)
    }

    /// The block flattens to as many entries as it has trained parameters.
    pub proof fn lemma_flat_len(&self, n_embd: int, maestro_dim: int, learnable_ode: bool)
        requires
            self.wf(n_embd, maestro_dim),
        ensures
            self.flat(learnable_ode).len() == self.len(n_embd, maestro_dim, learnable_ode),
    {
        reveal(WaveBlockWeights::flat);
        self.ffn.maestro_in.squeeze.lemma_flat_len(maestro_dim, n_embd);
        self.ffn.maestro_in.process_1.lemma_flat_len(n_embd, maestro_dim);
        self.ffn.maestro_out.squeeze.lemma_flat_len(maestro_dim, n_embd);
        self.ffn.maestro_out.process_1.lemma_flat_len(n_embd, maestro_dim);
        self.ffn.out_proj.lemma_flat_len();
    }

    /// Everything but the values of the trained parameters agrees.
    #[verifier::opaque]
    pub open spec fn same_frame(&self, other: &Self, learnable_ode: bool) -> bool {
        &&& self.attn == other.attn
        &&& self.ffn.kerr.omega == other.ffn.kerr.omega
        &&& self.ffn.kerr.rk4_n_steps == other.ffn.kerr.rk4_n_steps
        &&& self.ffn.kerr.chi == other.ffn.kerr.chi
        &&& self.ffn.kerr.rk4_weights == other.ffn.kerr.rk4_weights
        &&& self.ffn.kerr.coherent_matrix == other.ffn.kerr.coherent_matrix
        &&& self.ffn.kerr.mix_strength == other.ffn.kerr.mix_strength
        &&& self.ffn.kerr.gamma_raw@.len() == other.ffn.kerr.gamma_raw@.len()
        &&& self.ffn.kerr.phase_correction@.len() == other.ffn.kerr.phase_correction@.len()
        &&& self.ffn.out_proj.same_shape(&other.ffn.out_proj)
        &&& !learnable_ode ==> self.ffn.kerr == other.ffn.kerr
    }

    /// The trained parameters agree, section by section.
    pub open spec fn same_params(&self, other: &Self, learnable_ode: bool) -> bool {
        &&& self.ln.weight@ == other.ln.weight@
        &&& self.ln.bias@ == other.ln.bias@
        &&& self.ln_ffn.weight@ == other.ln_ffn.weight@
        &&& self.ln_ffn.bias@ == other.ln_ffn.bias@
        &&& self.ffn.maestro_in.squeeze.flat() == other.ffn.maestro_in.squeeze.flat()
        &&& self.ffn.maestro_in.process_1.flat() == other.ffn.maestro_in.process_1.flat()
        &&& self.ffn.maestro_out.squeeze.flat() == other.ffn.maestro_out.squeeze.flat()
        &&& self.ffn.maestro_out.process_1.flat() == other.ffn.maestro_out.process_1.flat()
        &&& self.ffn.out_proj.flat() == other.ffn.out_proj.flat()
        &&& learnable_ode ==> {
            &&& self.ffn.kerr.gamma_raw@ == other.ffn.kerr.gamma_raw@
            &&& self.ffn.kerr.alpha == other.ffn.kerr.alpha
            &&& self.ffn.kerr.beta == other.ffn.kerr.beta
            &&& self.ffn.kerr.phase_correction@ == other.ffn.kerr.phase_correction@
        }
    }
}

/// The blocks laid end to end.
pub open spec fn blocks_flat<T>(blocks: Seq<WaveBlockWeights<T>>, learnable_ode: bool) -> Seq<T>
    decreases blocks.len(),
{
    if blocks.len() == 0 {
        Seq::empty()
    } else {
        blocks_flat(blocks.drop_last(), learnable_ode) + blocks.last().flat(learnable_ode)
    }
}

/// Every block has the model's dimensions.
pub open spec fn blocks_wf<T>(
    blocks: Seq<WaveBlockWeights<T>>,
    n_embd: int,
    maestro_dim: int,
) -> bool {
    forall|b: int| 0 <= b < blocks.len() ==> (#[trigger] blocks[b]).wf(n_embd, maestro_dim)
}

/// A prefix of the blocks with one more block.
pub proof fn lemma_blocks_flat_step<T>(
    blocks: Seq<WaveBlockWeights<T>>,
    learnable_ode: bool,
    b: int,
)
    requires
        0 <= b < blocks.len(),
    ensures
        blocks_flat(blocks.subrange(0, b + 1), learnable_ode) == blocks_flat(
            blocks.subrange(0, b),
            learnable_ode,
        ) + blocks[b].flat(learnable_ode),
{
    assert(blocks.subrange(0, b + 1).drop_last() =~= blocks.subrange(0, b));
}

/// A prefix of the blocks is no longer than all of them.
pub proof fn lemma_blocks_flat_prefix<T>(
    blocks: Seq<WaveBlockWeights<T>>,
    learnable_ode: bool,
    b: int,
)
    requires
        0 <= b <= blocks.len(),
    ensures
        blocks_flat(blocks.subrange(0, b), learnable_ode).len() <= blocks_flat(
            blocks,
            learnable_ode,
        ).len(),
    decreases blocks.len() - b,
{
    if b == blocks.len() {
        assert(blocks.subrange(0, b) =~= blocks);
    } else {
        lemma_blocks_flat_step(blocks, learnable_ode, b);
        lemma_blocks_flat_prefix(blocks, learnable_ode, b + 1);
    }
}

impl<T> WavePacketModel<T> {
    /// Embedding width.
    pub open spec fn n_embd(&self) -> int {
        self.ln_f.weight@.len() as int
    }

    /// Bottleneck width of the regulators.
    pub open spec fn maestro_dim(&self) -> int {
        self.blocks@[0].ffn.maestro_in.squeeze.w@.len() as int
    }

    /// The part that decodes the hidden state has the model's dimensions.
    pub open spec fn decoder_wf(&self, tied: bool) -> bool {
        if self.phase_native {
            true
        } else if let Some(wds) = self.wd_state {
            wds.wf()
        } else if self.lm_rank > 0 {
            &&& self.lm_down@.len() == self.lm_rank
            &&& rows_width(self.lm_down@, self.n_embd())
            &&& self.lm_up@.len() == self.vocab_size
            &&& rows_width(self.lm_up@, self.lm_rank as int)
        } else if !tied {
            &&& self.lm_head@.len() == self.vocab_size
            &&& rows_width(self.lm_head@, self.n_embd())
        } else {
            true
        }
    }

    /// There is a block, and all trained parameters have the model's dimensions.
    pub open spec fn wf(&self, tied: bool) -> bool {
        &&& self.blocks@.len() > 0
        &&& self.ln_f.bias@.len() == self.n_embd()
        &&& blocks_wf(self.blocks@, self.n_embd(), self.maestro_dim())
        &&& self.decoder_wf(tied)
    }

    /// The layer scales, if they are trained.
    pub open spec fn scale_flat(&self) -> Seq<T> {
        if self.use_layer_scale {
            self.layer_scale@
        } else {
            Seq::empty()
        }
    }

    /// The parameters of the decoder in flat order: the output corrector, the
    /// wave decoder, the two low-rank factors, the full head, or the single
    /// temperature of a head tied to the embedding.
    pub open spec fn decoder_flat(&self, tied: bool) -> Seq<T> {
        if self.phase_native {
            self.output_corrector@
        } else if let Some(wds) = self.wd_state {
            wds.flat()
        } else if self.lm_rank > 0 {
            rows_flat(self.lm_down@) + rows_flat(self.lm_up@)
        } else if !tied {
            rows_flat(self.lm_head@)
        } else {
            seq![self.tied_temperature]
        }
    }

    /// All trained parameters in flat order.
    pub open spec fn flat(&self, tied: bool) -> Seq<T> {
        blocks_flat(self.blocks@, self.learnable_ode) + self.scale_flat() + self.ln_f.weight@
            + self.ln_f.bias@ + self.decoder_flat(tied)
    }

    /// Number of parameters of the decoder.
    pub open spec fn decoder_len(&self, tied: bool) -> int {
        if self.phase_native {
            self.output_corrector@.len() as int
        } else if let Some(wds) = self.wd_state {
            wds.spec_param_count()
        } else if self.lm_rank > 0 {
            self.lm_rank * self.n_embd() + self.vocab_size * self.lm_rank
        } else if !tied {
            self.vocab_size * self.n_embd()
        } else {
            1
        }
    }

    /// The decoder flattens to as many entries as it has parameters.
    pub proof fn lemma_decoder_len(&self, tied: bool)
        requires
            self.decoder_wf(tied),
        ensures
            self.decoder_flat(tied).len() == self.decoder_len(tied),
    {
        if self.phase_native {
        } else if let Some(wds) = self.wd_state {
            wds.lemma_flat_len();
        } else if self.lm_rank > 0 {
            lemma_rows_flat_len(self.lm_down@, self.n_embd());
            lemma_rows_flat_len(self.lm_up@, self.lm_rank as int);
        } else if !tied {
            lemma_rows_flat_len(self.lm_head@, self.n_embd());
        }
    }

    /// Everything but the values of the trained parameters agrees.
    pub open spec fn same_frame(&self, other: &Self, tied: bool) -> bool {
        &&& self.wte == other.wte
        &&& self.wpe == other.wpe
        &&& self.lm_rank == other.lm_rank
        &&& self.vocab_size == other.vocab_size
        &&& self.learnable_ode == other.learnable_ode
        &&& self.use_layer_scale == other.use_layer_scale
        &&& self.lr_scale == other.lr_scale
        &&& self.use_lr_scale == other.use_lr_scale
        &&& self.phase_native == other.phase_native
        &&& self.n_embd() == other.n_embd()
        &&& self.maestro_dim() == other.maestro_dim()
        &&& self.layer_scale@.len() == other.layer_scale@.len()
        &&& !self.use_layer_scale ==> self.layer_scale == other.layer_scale
        &&& self.blocks@.len() == other.blocks@.len()
        &&& forall|b: int|
            0 <= b < self.blocks@.len() ==> (#[trigger] self.blocks@[b]).same_frame(
                &other.blocks@[b],
                self.learnable_ode,
            )
        &&& self.decoder_frame(other, tied)
    }

    /// Only the decoder that is in use may differ, and only in its values.
    pub open spec fn decoder_frame(&self, other: &Self, tied: bool) -> bool {
        let native = self.phase_native;
        let wave = !native && self.wd_state is Some;
        let low = !native && self.wd_state is None && self.lm_rank > 0;
        let full = !native && self.wd_state is None && self.lm_rank == 0 && !tied;
        let temp = !native && self.wd_state is None && self.lm_rank == 0 && tied;
        &&& self.output_corrector@.len() == other.output_corrector@.len()
        &&& !native ==> self.output_corrector == other.output_corrector
        &&& self.wd_state is Some <==> other.wd_state is Some
        &&& if wave {
            self.wd_state->0.same_frame(&other.wd_state->0)
        } else {
            self.wd_state == other.wd_state
        }
        &&& !low ==> self.lm_down == other.lm_down && self.lm_up == other.lm_up
        &&& !full ==> self.lm_head == other.lm_head
        &&& !temp ==> self.tied_temperature == other.tied_temperature
    }
}

/// Number of trained parameters with an untied head.
pub fn count_trainable<T>(model: &WavePacketModel<T>) -> (n: usize)
    requires
        model.wf(false),
        model.flat(false).len() <= usize::MAX,
    ensures
        n == model.flat(false).len(),
{
    count_trainable_ex(model, false)
}

/// Number of trained parameters: exactly the length of the flat layout.
pub fn count_trainable_ex<T>(model: &WavePacketModel<T>, tied: bool) -> (n: usize)
    requires
        model.wf(tied),
        model.flat(tied).len() <= usize::MAX,
    ensures
        n == model.flat(tied).len(),
        n == blocks_flat(model.blocks@, model.learnable_ode).len() + (if model.use_layer_scale {
            model.layer_scale@.len() as int
        } else {
            0
        }) + model.n_embd() * 2 + model.decoder_len(tied),
{
    let n_embd: usize = model.ln_f.weight.len();
    let maestro_dim: usize = model.blocks[0].ffn.maestro_in.squeeze.w.len();
    let learnable: bool = model.learnable_ode;
    let n_blocks: usize = model.blocks.len();
    let mut n: usize = 0;
    let mut b: usize = 0;
    assert(blocks_flat(model.blocks@.subrange(0, 0), learnable) =~= Seq::<T>::empty());
    proof {
        model.lemma_decoder_len(tied);
    }
    while b < n_blocks
        invariant
            n_blocks == model.blocks@.len(),
            learnable == model.learnable_ode,
            n_embd == model.n_embd(),
            maestro_dim == model.maestro_dim(),
            blocks_wf(model.blocks@, n_embd as int, maestro_dim as int),
            blocks_flat(model.blocks@, learnable).len() <= usize::MAX,
            b <= n_blocks,
            n == blocks_flat(model.blocks@.subrange(0, b as int), learnable).len(),
        decreases n_blocks - b,
    {
        let block = &model.blocks[b];
        proof {
            block.lemma_flat_len(n_embd as int, maestro_dim as int, learnable);
            block.ffn.out_proj.lemma_flat_len();
            lemma_blocks_flat_step(model.blocks@, learnable, b as int);
            lemma_blocks_flat_prefix(model.blocks@, learnable, b + 1);
        }
        assert(maestro_dim * n_embd >= 0 && n_embd * maestro_dim >= 0) by (nonlinear_arith);
        n = n + n_embd * 2;
        n = n + n_embd * 2;
        n = n + (maestro_dim * n_embd + maestro_dim);
        n = n + (n_embd * maestro_dim + n_embd);
        n = n + (maestro_dim * n_embd + maestro_dim);
        n = n + (n_embd * maestro_dim + n_embd);
        n = n + block.ffn.out_proj.param_count();
        if learnable {
            n = n + block.ffn.kerr.gamma_raw.len();
            n = n + 1;
            n = n + 1;
            n = n + block.ffn.kerr.phase_correction.len();
        }
        b += 1;
    }
    assert(model.blocks@.subrange(0, n_blocks as int) =~= model.blocks@);
    if model.use_layer_scale {
        n = n + model.layer_scale.len();
    }
    n = n + n_embd * 2;
    if model.phase_native {
        n = n + model.output_corrector.len();
    } else if let Some(wds) = &model.wd_state {
        n = n + wave_decode::param_count(wds);
    } else if model.lm_rank > 0 {
        let rank: usize = model.lm_rank;
        let vocab: usize = model.vocab_size;
        assert(rank * n_embd >= 0 && vocab * rank >= 0) by (nonlinear_arith);
        n = n + rank * n_embd;
        n = n + vocab * rank;
    } else if !tied {
        let vocab: usize = model.vocab_size;
        assert(vocab * n_embd >= 0) by (nonlinear_arith);
        n = n + vocab * n_embd;
    } else {
        n = n + 1;
    }
    n
}

/// Appends a regulator in flat order.
fn flatten_maestro<T: Copy>(m: &MaestroWeights<T>, out: &mut Vec<T>)
    ensures
        final(out)@ == old(out)@ + maestro_flat(*m),
{
    m.squeeze.flatten_into(out);
    m.process_1.flatten_into(out);
    assert(out@ =~= old(out)@ + maestro_flat(*m));
}

/// Appends a block in flat order.
fn flatten_block<T: Copy>(block: &WaveBlockWeights<T>, learnable_ode: bool, out: &mut Vec<T>)
    ensures
        final(out)@ == old(out)@ + block.flat(learnable_ode),
{
    reveal(WaveBlockWeights::flat);
    extend_from(out, &block.ln.weight);
    extend_from(out, &block.ln.bias);
    extend_from(out, &block.ln_ffn.weight);
    extend_from(out, &block.ln_ffn.bias);
    assert(out@ =~= old(out)@ + block.norms_flat());
    flatten_maestro(&block.ffn.maestro_in, out);
    flatten_maestro(&block.ffn.maestro_out, out);
    block.ffn.out_proj.flatten_into(out);
    let ghost before_ode = out@;
    if learnable_ode {
        extend_from(out, &block.ffn.kerr.gamma_raw);
        out.push(block.ffn.kerr.alpha);
        out.push(block.ffn.kerr.beta);
        extend_from(out, &block.ffn.kerr.phase_correction);
        assert(out@ =~= before_ode + block.ode_flat(true));
    }
    assert(out@ =~= old(out)@ + block.flat(learnable_ode));
}

/// All trained parameters in flat order, with an untied head.
pub fn flatten_params<T: Copy>(model: &WavePacketModel<T>) -> (out: Vec<T>)
    ensures
        out@ == model.flat(false),
{
    flatten_params_ex(model, false)
}

/// All trained parameters in flat order.
pub fn flatten_params_ex<T: Copy>(model: &WavePacketModel<T>, tied: bool) -> (out: Vec<T>)
    ensures
        out@ == model.flat(tied),
{
    let learnable: bool = model.learnable_ode;
    let n_blocks: usize = model.blocks.len();
    let mut out: Vec<T> = Vec::new();
    let mut b: usize = 0;
    assert(blocks_flat(model.blocks@.subrange(0, 0), learnable) =~= Seq::<T>::empty());
    while b < n_blocks
        invariant
            n_blocks == model.blocks@.len(),
            b <= n_blocks,
            out@ == blocks_flat(model.blocks@.subrange(0, b as int), learnable),
        decreases n_blocks - b,
    {
        flatten_block(&model.blocks[b], learnable, &mut out);
        proof {
            lemma_blocks_flat_step(model.blocks@, learnable, b as int);
        }
        b += 1;
    }
    assert(model.blocks@.subrange(0, n_blocks as int) =~= model.blocks@);
    if model.use_layer_scale {
        extend_from(&mut out, &model.layer_scale);
    }
    assert(out@ =~= blocks_flat(model.blocks@, learnable) + model.scale_flat());
    extend_from(&mut out, &model.ln_f.weight);
    extend_from(&mut out, &model.ln_f.bias);
    let ghost before = out@;
    if model.phase_native {
        extend_from(&mut out, &model.output_corrector);
    } else if let Some(wds) = &model.wd_state {
        let p: Vec<T> = wave_decode::flatten_params(wds);
        extend_from(&mut out, &p);
    } else if model.lm_rank > 0 {
        extend_rows(&mut out, &model.lm_down);
        extend_rows(&mut out, &model.lm_up);
    } else if !tied {
        extend_rows(&mut out, &model.lm_head);
    } else {
        out.push(model.tied_temperature);
    }
    assert(out@ =~= before + model.decoder_flat(tied));
    out
}

/// Reads a regulator out of `params` from `start` on.
fn read_maestro<T: Copy>(
    params: &[T],
    start: usize,
    n_embd: usize,
    maestro_dim: usize,
) -> (m: MaestroWeights<T>)
    requires
        start + maestro_len(n_embd as int, maestro_dim as int) <= params@.len(),
    ensures
        maestro_shaped(m, n_embd as int, maestro_dim as int),
        maestro_flat(m) == params@.subrange(
            start as int,
            start + maestro_len(n_embd as int, maestro_dim as int),
        ),
{
    let total: usize = params.len();
    assert(maestro_dim * n_embd >= 0 && n_embd * maestro_dim >= 0) by (nonlinear_arith);
    let squeeze: LinearWeights<T> = LinearWeights::read(params, start, maestro_dim, n_embd);
    let mid: usize = start + (maestro_dim * n_embd + maestro_dim);
    let process_1: LinearWeights<T> = LinearWeights::read(params, mid, n_embd, maestro_dim);
    let m = MaestroWeights { squeeze, process_1 };
    assert(maestro_flat(m) =~= params@.subrange(
        start as int,
        start + maestro_len(n_embd as int, maestro_dim as int),
    ));
    m
}

/// Five adjacent pieces of `params` make up the flat layout of a block.
proof fn lemma_block_pieces<T>(
    block: WaveBlockWeights<T>,
    learnable_ode: bool,
    params: Seq<T>,
    cuts: Seq<int>,
)
    requires
        cuts.len() == 6,
        0 <= cuts[0] <= cuts[1] <= cuts[2] <= cuts[3] <= cuts[4] <= cuts[5] <= params.len(),
        block.norms_flat() == params.subrange(cuts[0], cuts[1]),
        maestro_flat(block.ffn.maestro_in) == params.subrange(cuts[1], cuts[2]),
        maestro_flat(block.ffn.maestro_out) == params.subrange(cuts[2], cuts[3]),
        block.ffn.out_proj.flat() == params.subrange(cuts[3], cuts[4]),
        block.ode_flat(learnable_ode) == params.subrange(cuts[4], cuts[5]),
    ensures
        block.flat(learnable_ode) == params.subrange(cuts[0], cuts[5]),
{
    reveal(WaveBlockWeights::flat);
    assert(block.flat(learnable_ode) =~= params.subrange(cuts[0], cuts[5]));
}

/// Four adjacent pieces of `params` make up the normalisation vectors.
fn read_norms<T: Copy>(params: &[T], start: usize, n_embd: usize) -> (norms: (
    LayerNormWeights<T>,
    LayerNormWeights<T>,
))
    requires
        start + 4 * n_embd <= params@.len(),
    ensures
        norms.0.weight@.len() == n_embd,
        norms.0.bias@.len() == n_embd,
        norms.1.weight@.len() == n_embd,
        norms.1.bias@.len() == n_embd,
        norms.0.weight@ + norms.0.bias@ + norms.1.weight@ + norms.1.bias@ == params@.subrange(
            start as int,
            start + 4 * n_embd,
        ),
{
    let total: usize = params.len();
    let a: Vec<T> = take(params, start, n_embd);
    let b: Vec<T> = take(params, start + n_embd, n_embd);
    let c: Vec<T> = take(params, start + 2 * n_embd, n_embd);
    let d: Vec<T> = take(params, start + 3 * n_embd, n_embd);
    assert(a@ + b@ + c@ + d@ =~= params@.subrange(start as int, start + 4 * n_embd));
    (LayerNormWeights { weight: a, bias: b }, LayerNormWeights { weight: c, bias: d })
}

/// Overwrites the trained parameters of a block with `params` from `start` on
/// and returns the offset past them.
fn unflatten_block<T: Copy>(
    block: &mut WaveBlockWeights<T>,
    params: &[T],
    start: usize,
    n_embd: usize,
    maestro_dim: usize,
    learnable_ode: bool,
) -> (next: usize)
    requires
        old(block).wf(n_embd as int, maestro_dim as int),
        start + old(block).flat(learnable_ode).len() <= params@.len(),
    ensures
        next == start + old(block).flat(learnable_ode).len(),
        final(block).wf(n_embd as int, maestro_dim as int),
        final(block).same_frame(old(block), learnable_ode),
        final(block).flat(learnable_ode) == params@.subrange(start as int, next as int),
{
    let total: usize = params.len();
    proof {
        block.lemma_flat_len(n_embd as int, maestro_dim as int, learnable_ode);
        block.ffn.out_proj.lemma_flat_len();
    }
    assert(maestro_dim * n_embd >= 0 && n_embd * maestro_dim >= 0) by (nonlinear_arith);
    let (ln, ln_ffn) = read_norms(params, start, n_embd);
    let at1: usize = start + 4 * n_embd;
    let each: usize = (maestro_dim * n_embd + maestro_dim) + (n_embd * maestro_dim + n_embd);
    let maestro_in: MaestroWeights<T> = read_maestro(params, at1, n_embd, maestro_dim);
    let at2: usize = at1 + each;
    let maestro_out: MaestroWeights<T> = read_maestro(params, at2, n_embd, maestro_dim);
    let at3: usize = at2 + each;
    let mut at: usize = at3;
    block.ln = ln;
    block.ln_ffn = ln_ffn;
    block.ffn.maestro_in = maestro_in;
    block.ffn.maestro_out = maestro_out;
    block.ffn.out_proj.unflatten_from(params, &mut at);
    let at4: usize = at;
    if learnable_ode {
        let nb: usize = block.ffn.kerr.gamma_raw.len();
        let nc: usize = block.ffn.kerr.phase_correction.len();
        block.ffn.kerr.gamma_raw = take(params, at4, nb);
        block.ffn.kerr.alpha = params[at4 + nb];
        block.ffn.kerr.beta = params[at4 + nb + 1];
        block.ffn.kerr.phase_correction = take(params, at4 + nb + 2, nc);
        at = at4 + nb + 2 + nc;
    }
    assert(block.ode_flat(learnable_ode) =~= params@.subrange(at4 as int, at as int));
    proof {
        lemma_block_pieces(
            *block,
            learnable_ode,
            params@,
            seq![start as int, at1 as int, at2 as int, at3 as int, at4 as int, at as int],
        );
        reveal(WaveBlockWeights::same_frame);
    }
    at
}

/// Overwrites the trained parameters of all blocks with the first entries of
/// `params` and returns the offset past them.
fn unflatten_blocks<T: Copy>(
    blocks: &mut Vec<WaveBlockWeights<T>>,
    params: &[T],
    n_embd: usize,
    maestro_dim: usize,
    learnable_ode: bool,
) -> (next: usize)
    requires
        blocks_wf(old(blocks)@, n_embd as int, maestro_dim as int),
        blocks_flat(old(blocks)@, learnable_ode).len() <= params@.len(),
    ensures
        next == blocks_flat(old(blocks)@, learnable_ode).len(),
        final(blocks)@.len() == old(blocks)@.len(),
        blocks_wf(final(blocks)@, n_embd as int, maestro_dim as int),
        forall|b: int|
            0 <= b < final(blocks)@.len() ==> (#[trigger] final(blocks)@[b]).same_frame(
                &old(blocks)@[b],
                learnable_ode,
            ),
        blocks_flat(final(blocks)@, learnable_ode) == params@.subrange(0, next as int),
{
    let n_blocks: usize = blocks.len();
    let mut at: usize = 0;
    let mut b: usize = 0;
    let ghost start = blocks@;
    assert(blocks_flat(start.subrange(0, 0), learnable_ode) =~= Seq::<T>::empty());
    assert(params@.subrange(0, 0) =~= Seq::<T>::empty());
    while b < n_blocks
        invariant
            n_blocks == start.len(),
            blocks_wf(start, n_embd as int, maestro_dim as int),
            blocks_flat(start, learnable_ode).len() <= params@.len(),
            b <= n_blocks,
            blocks@.len() == n_blocks,
            at == blocks_flat(start.subrange(0, b as int), learnable_ode).len(),
            at <= params@.len(),
            blocks_flat(blocks@.subrange(0, b as int), learnable_ode) == params@.subrange(
                0,
                at as int,
            ),
            forall|k: int|
                0 <= k < b ==> (#[trigger] blocks@[k]).wf(n_embd as int, maestro_dim as int)
                    && blocks@[k].same_frame(&start[k], learnable_ode),
            forall|k: int| b <= k < n_blocks ==> #[trigger] blocks@[k] == start[k],
        decreases n_blocks - b,
    {
        proof {
            lemma_blocks_flat_step(start, learnable_ode, b as int);
            lemma_blocks_flat_prefix(start, learnable_ode, b + 1);
        }
        let ghost before = blocks@;
        let next: usize = unflatten_block(
            &mut blocks[b],
            params,
            at,
            n_embd,
            maestro_dim,
            learnable_ode,
        );
        proof {
            lemma_blocks_flat_step(blocks@, learnable_ode, b as int);
            assert(blocks@.subrange(0, b as int) =~= before.subrange(0, b as int));
            assert(params@.subrange(0, next as int) =~= params@.subrange(0, at as int)
                + params@.subrange(at as int, next as int));
        }
        at = next;
        b += 1;
    }
    assert(blocks@.subrange(0, n_blocks as int) =~= blocks@);
    assert(start.subrange(0, n_blocks as int) =~= start);
    at
}

/// Overwrites the parameters of the decoder in use with the rest of `params`.
fn unflatten_decoder<T: Copy, A: Arith<T>>(
    ops: &A,
    model: &mut WavePacketModel<T>,
    params: &[T],
    at: usize,
    tied: bool,
)
    requires
        old(model).decoder_wf(tied),
        at + old(model).decoder_len(tied) == params@.len(),
    ensures
        final(model).decoder_wf(tied),
        final(model).decoder_frame(old(model), tied),
        final(model).decoder_flat(tied) == params@.subrange(at as int, params@.len() as int),
        tables_follow(*ops, *final(model)),
        final(model).wte == old(model).wte,
        final(model).wpe == old(model).wpe,
        final(model).blocks == old(model).blocks,
        final(model).ln_f == old(model).ln_f,
        final(model).lm_rank == old(model).lm_rank,
        final(model).vocab_size == old(model).vocab_size,
        final(model).learnable_ode == old(model).learnable_ode,
        final(model).layer_scale == old(model).layer_scale,
        final(model).use_layer_scale == old(model).use_layer_scale,
        final(model).lr_scale == old(model).lr_scale,
        final(model).use_lr_scale == old(model).use_lr_scale,
        final(model).phase_native == old(model).phase_native,
{
    let total: usize = params.len();
    let n_embd: usize = model.ln_f.weight.len();
    if model.phase_native {
        let nc: usize = model.output_corrector.len();
        model.output_corrector = take(params, at, nc);
    } else if model.wd_state.is_some() {
        let rest: usize = total - at;
        let own: Vec<T> = take(params, at, rest);
        let mut state: Option<WaveDecodeState<T>> = None;
        std::mem::swap(&mut state, &mut model.wd_state);
        match state {
            Some(mut wds) => {
                wave_decode::unflatten_params(&mut wds, &own);
                refresh_cos_sin_cache(ops, &mut wds);
                model.wd_state = Some(wds);
            },
            None => {},
        }
    } else if model.lm_rank > 0 {
        let rank: usize = model.lm_rank;
        let vocab: usize = model.vocab_size;
        assert(rank * n_embd >= 0 && vocab * rank >= 0) by (nonlinear_arith);
        model.lm_down = take_rows(params, at, rank, n_embd);
        let mid: usize = at + rank * n_embd;
        model.lm_up = take_rows(params, mid, vocab, rank);
    } else if !tied {
        let vocab: usize = model.vocab_size;
        model.lm_head = take_rows(params, at, vocab, n_embd);
    } else {
        model.tied_temperature = params[at];
    }
    assert(model.decoder_flat(tied) =~= params@.subrange(at as int, total as int));
}

/// The tables of a wave decoder in use that trains its references are those of the references.
pub open spec fn tables_follow<T: Copy, A: Arith<T>>(ops: A, model: WavePacketModel<T>) -> bool {
    !model.phase_native ==> match model.wd_state {
        Some(wds) => match wds.ref_phases {
            Some(phases) => tables_of_phases(ops, phases@, wds.token_cos@, wds.token_sin@),
            None => true,
        },
        None => true,
    }
}

/// A block with other strengths of its coupling.
pub open spec fn recoupled<T>(
    block: WaveBlockWeights<T>,
    alpha: T,
    beta: T,
) -> WaveBlockWeights<T> {
    let kerr = KerrWeights { alpha, beta, ..block.ffn.kerr };
    WaveBlockWeights { ffn: KerrDualMaestroWeights { kerr, ..block.ffn }, ..block }
}

/// The strength of a band's own energy, kept between 0.01 and 0.5.
pub open spec fn kept_alpha<T>(p: T) -> Expr<T> {
    clamped(val(p), Expr::Ratio(1, 100), Expr::Ratio(1, 2))
}

/// The strength of the energy around a band, kept between 0.01 and 1.
pub open spec fn kept_beta<T>(p: T) -> Expr<T> {
    clamped(val(p), Expr::Ratio(1, 100), one())
}

/// A layer scale, lifted to zero where it is negative.
pub open spec fn kept_scale<T>(p: T) -> Expr<T> {
    pick(Test::Exceeds, zero(), val(p), zero(), val(p))
}

/// A block whose trained parameters are `piece`, but for the two strengths of its coupling,
/// which are kept within their bounds.
pub open spec fn block_holds<T: Copy, A: Arith<T>>(
    ops: A,
    block: WaveBlockWeights<T>,
    piece: Seq<T>,
    learnable_ode: bool,
) -> bool {
    if learnable_ode {
        let at = piece.len() - block.ffn.kerr.phase_correction@.len() - 2;
        &&& block.flat(true).len() == piece.len()
        &&& forall|i: int|
            0 <= i < piece.len() && i != at && i != at + 1 ==> #[trigger] block.flat(true)[i]
                == piece[i]
        &&& fits(ops, kept_alpha(piece[at]), block.ffn.kerr.alpha)
        &&& fits(ops, kept_beta(piece[at + 1]), block.ffn.kerr.beta)
    } else {
        block.flat(false) == piece
    }
}

/// Where the parameters of block `b` start in the flat layout.
pub open spec fn block_start<T>(
    blocks: Seq<WaveBlockWeights<T>>,
    learnable_ode: bool,
    b: int,
) -> int {
    blocks_flat(blocks.subrange(0, b), learnable_ode).len() as int
}

/// What writing `params` into `before` leaves: every parameter holds its entry, but couplings
/// and layer scales are kept within their bounds, and the tables of a wave decoder follow its
/// references.
pub open spec fn holds_params<T: Copy, A: Arith<T>>(
    ops: A,
    before: WavePacketModel<T>,
    params: Seq<T>,
    tied: bool,
    after: WavePacketModel<T>,
) -> bool {
    let learnable = before.learnable_ode;
    let at1 = blocks_flat(before.blocks@, learnable).len() as int;
    let at2 = at1 + before.scale_flat().len();
    let n = before.n_embd();
    &&& after.wf(tied)
    &&& after.same_frame(&before, tied)
    &&& forall|b: int|
        0 <= b < before.blocks@.len() ==> block_holds(
            ops,
            #[trigger] after.blocks@[b],
            params.subrange(
                block_start(before.blocks@, learnable, b),
                block_start(before.blocks@, learnable, b + 1),
            ),
            learnable,
        )
    &&& before.use_layer_scale ==> forall|l: int|
        0 <= l < before.layer_scale@.len() ==> fits(
            ops,
            kept_scale(params[at1 + l]),
            #[trigger] after.layer_scale@[l],
        )
    &&& after.ln_f.weight@ == params.subrange(at2, at2 + n)
    &&& after.ln_f.bias@ == params.subrange(at2 + n, at2 + 2 * n)
    &&& after.decoder_flat(tied) == params.subrange(at2 + 2 * n, params.len() as int)
    &&& tables_follow(ops, after)
}

/// Overwrites all trained parameters with `params`, with an untied head, as
/// `unflatten_params_ex` does.
pub fn unflatten_params<T: Copy, A: Arith<T>>(
    ops: &A,
    model: &mut WavePacketModel<T>,
    params: &[T],
)
    requires
        old(model).wf(false),
        params@.len() == old(model).flat(false).len(),
    ensures
        holds_params(*ops, *old(model), params@, false, *final(model)),
{
    unflatten_params_ex(ops, model, params, false);
}

/// Keeps the couplings of a block within their bounds.
fn settle_block<T: Copy, A: Arith<T>>(ops: &A, block: &mut WaveBlockWeights<T>)
    ensures
        *final(block) == recoupled(
            *old(block),
            final(block).ffn.kerr.alpha,
            final(block).ffn.kerr.beta,
        ),
        fits(*ops, kept_alpha(old(block).ffn.kerr.alpha), final(block).ffn.kerr.alpha),
        fits(*ops, kept_beta(old(block).ffn.kerr.beta), final(block).ffn.kerr.beta),
{
    let low: Traced<T> = Traced::ratio(ops, 1, 100);
    let half: Traced<T> = Traced::ratio(ops, 1, 2);
    let whole: Traced<T> = Traced::ratio(ops, 1, 1);
    let alpha: Traced<T> = clamped_on(ops, Traced::of(ops, block.ffn.kerr.alpha), low, half);
    let beta: Traced<T> = clamped_on(ops, Traced::of(ops, block.ffn.kerr.beta), low, whole);
    block.ffn.kerr.alpha = alpha.v;
    block.ffn.kerr.beta = beta.v;
}

/// Keeps the couplings of all blocks within their bounds.
fn settle_blocks<T: Copy, A: Arith<T>>(ops: &A, blocks: &mut Vec<WaveBlockWeights<T>>)
    ensures
        final(blocks)@.len() == old(blocks)@.len(),
        forall|b: int|
            0 <= b < old(blocks)@.len() ==> settled(
                *ops,
                old(blocks)@[b],
                #[trigger] final(blocks)@[b],
            ),
{
    let ghost start = blocks@;
    let n: usize = blocks.len();
    let mut b: usize = 0;
    while b < n
        invariant
            n == start.len(),
            blocks@.len() == n,
            b <= n,
            forall|k: int| 0 <= k < b ==> settled(*ops, start[k], #[trigger] blocks@[k]),
            forall|k: int| b <= k < n ==> #[trigger] blocks@[k] == start[k],
        decreases n - b,
    {
        settle_block(ops, &mut blocks[b]);
        b += 1;
    }
}

/// A block whose couplings were kept within their bounds.
spec fn settled<T: Copy, A: Arith<T>>(
    ops: A,
    before: WaveBlockWeights<T>,
    after: WaveBlockWeights<T>,
) -> bool {
    &&& after == recoupled(before, after.ffn.kerr.alpha, after.ffn.kerr.beta)
    &&& fits(ops, kept_alpha(before.ffn.kerr.alpha), after.ffn.kerr.alpha)
    &&& fits(ops, kept_beta(before.ffn.kerr.beta), after.ffn.kerr.beta)
}

/// Lifts negative layer scales to zero.
fn lift_scales<T: Copy, A: Arith<T>>(ops: &A, scales: &[T]) -> (out: Vec<T>)
    ensures
        out@.len() == scales@.len(),
        forall|l: int|
            0 <= l < scales@.len() ==> fits(*ops, kept_scale(scales@[l]), #[trigger] out@[l]),
{
    let nought: Traced<T> = Traced::ratio(ops, 0, 1);
    let n: usize = scales.len();
    let mut out: Vec<T> = Vec::new();
    let mut l: usize = 0;
    while l < n
        invariant
            n == scales@.len(),
            nought.ok(*ops),
            nought.e@ == zero::<T>(),
            l <= n,
            out@.len() == l,
            forall|k: int|
                0 <= k < l ==> fits(*ops, kept_scale(scales@[k]), #[trigger] out@[k]),
        decreases n - l,
    {
        let s: Traced<T> = Traced::of(ops, scales[l]);
        out.push(pick_on(ops, Test::Exceeds, nought, s, nought, s).v);
        l += 1;
    }
    out
}

/// Block `b` stands in the flat layout between its start and the next block's.
proof fn lemma_block_piece<T>(blocks: Seq<WaveBlockWeights<T>>, learnable_ode: bool, b: int, n: int)
    requires
        0 <= b < n <= blocks.len(),
    ensures
        0 <= block_start(blocks, learnable_ode, b) <= block_start(blocks, learnable_ode, b + 1)
            <= blocks_flat(blocks.subrange(0, n), learnable_ode).len(),
        blocks_flat(blocks.subrange(0, n), learnable_ode).subrange(
            block_start(blocks, learnable_ode, b),
            block_start(blocks, learnable_ode, b + 1),
        ) == blocks[b].flat(learnable_ode),
    decreases n,
{
    let all = blocks_flat(blocks.subrange(0, n), learnable_ode);
    lemma_blocks_flat_step(blocks, learnable_ode, n - 1);
    let before = blocks_flat(blocks.subrange(0, n - 1), learnable_ode);
    let (from, to) = (
        block_start(blocks, learnable_ode, b),
        block_start(blocks, learnable_ode, b + 1),
    );
    if b == n - 1 {
        assert(all.subrange(from, to) =~= blocks[b].flat(learnable_ode));
    } else {
        lemma_block_piece(blocks, learnable_ode, b, n - 1);
        assert(all.subrange(from, to) =~= before.subrange(from, to));
    }
}

/// Blocks of one shape start at the same places.
proof fn lemma_same_starts<T>(
    a: Seq<WaveBlockWeights<T>>,
    c: Seq<WaveBlockWeights<T>>,
    n_embd: int,
    maestro_dim: int,
    learnable_ode: bool,
    b: int,
)
    requires
        0 <= b <= a.len(),
        a.len() == c.len(),
        blocks_wf(a, n_embd, maestro_dim),
        blocks_wf(c, n_embd, maestro_dim),
        forall|k: int| 0 <= k < a.len() ==> (#[trigger] a[k]).same_frame(&c[k], learnable_ode),
    ensures
        block_start(a, learnable_ode, b) == block_start(c, learnable_ode, b),
    decreases b,
{
    if b > 0 {
        lemma_same_starts(a, c, n_embd, maestro_dim, learnable_ode, b - 1);
        lemma_blocks_flat_step(a, learnable_ode, b - 1);
        lemma_blocks_flat_step(c, learnable_ode, b - 1);
        assert(a[b - 1].wf(n_embd, maestro_dim) && c[b - 1].wf(n_embd, maestro_dim));
        assert(a[b - 1].same_frame(&c[b - 1], learnable_ode));
        lemma_block_same_len(a[b - 1], c[b - 1], n_embd, maestro_dim, learnable_ode);
    } else {
        assert(a.subrange(0, 0) =~= c.subrange(0, 0));
    }
}

/// Keeping a block's couplings within their bounds leaves the rest of it alone.
proof fn lemma_settled<T: Copy, A: Arith<T>>(
    ops: A,
    before: WaveBlockWeights<T>,
    after: WaveBlockWeights<T>,
)
    requires
        settled(ops, before, after),
    ensures
        block_holds(ops, after, before.flat(true), true),
{
    reveal(WaveBlockWeights::flat);
    let front = before.norms_flat() + maestro_flat(before.ffn.maestro_in) + maestro_flat(
        before.ffn.maestro_out,
    ) + before.ffn.out_proj.flat();
    let gamma = before.ffn.kerr.gamma_raw@;
    let at = (front.len() + gamma.len()) as int;
    assert(before.flat(true) == front + before.ode_flat(true));
    assert(after.flat(true) == front + after.ode_flat(true));
    assert(before.flat(true)[at] == before.ffn.kerr.alpha);
    assert(before.flat(true)[at + 1] == before.ffn.kerr.beta);
}

/// Adjacent pieces of `params` make up the flat layout of a model.
proof fn lemma_model_pieces<T>(
    model: WavePacketModel<T>,
    tied: bool,
    params: Seq<T>,
    at1: int,
    at2: int,
    at3: int,
)
    requires
        0 <= at1 <= at2 <= at3 <= params.len(),
        blocks_flat(model.blocks@, model.learnable_ode) == params.subrange(0, at1),
        model.scale_flat() == params.subrange(at1, at2),
        model.ln_f.weight@ + model.ln_f.bias@ == params.subrange(at2, at3),
        model.decoder_flat(tied) == params.subrange(at3, params.len() as int),
    ensures
        model.flat(tied) == params,
{
    let norm = model.ln_f.weight@ + model.ln_f.bias@;
    let flat = blocks_flat(model.blocks@, model.learnable_ode) + model.scale_flat() + norm
        + model.decoder_flat(tied);
    assert(model.flat(tied) =~= flat);
    assert(flat =~= params);
}

/// Overwrites all trained parameters with `params`, entry by entry, and touches nothing but the
/// tables of a wave decoder whose references are trained.
#[verifier::spinoff_prover]
#[verifier::rlimit(40)]
fn place_params<T: Copy, A: Arith<T>>(
    ops: &A,
    model: &mut WavePacketModel<T>,
    params: &[T],
    tied: bool,
)
    requires
        old(model).wf(tied),
        params@.len() == old(model).flat(tied).len(),
    ensures
        final(model).wf(tied),
        final(model).same_frame(old(model), tied),
        final(model).flat(tied) == params@,
        tables_follow(*ops, *final(model)),
{
    let total: usize = params.len();
    let n_embd: usize = model.ln_f.weight.len();
    let maestro_dim: usize = model.blocks[0].ffn.maestro_in.squeeze.w.len();
    let learnable: bool = model.learnable_ode;
    proof {
        model.lemma_decoder_len(tied);
    }
    let mut at: usize = unflatten_blocks(
        &mut model.blocks,
        params,
        n_embd,
        maestro_dim,
        learnable,
    );
    assert(model.blocks@[0].wf(n_embd as int, maestro_dim as int));
    let ghost at1 = at as int;
    if model.use_layer_scale {
        let nl: usize = model.layer_scale.len();
        model.layer_scale = take(params, at, nl);
        at = at + nl;
    }
    assert(model.scale_flat() =~= params@.subrange(at1, at as int));
    let ghost at2 = at as int;
    model.ln_f.weight = take(params, at, n_embd);
    at = at + n_embd;
    model.ln_f.bias = take(params, at, n_embd);
    at = at + n_embd;
    assert(model.ln_f.weight@ + model.ln_f.bias@ =~= params@.subrange(at2, at as int));
    unflatten_decoder(ops, model, params, at, tied);
    proof {
        lemma_model_pieces(*model, tied, params@, at1, at2, at as int);
    }
}

/// Overwrites all trained parameters with `params`. The couplings of the ODE and the layer scales
/// are kept within their bounds, and the tables of a wave decoder are brought up to date with its
/// references.
pub fn unflatten_params_ex<T: Copy, A: Arith<T>>(
    ops: &A,
    model: &mut WavePacketModel<T>,
    params: &[T],
    tied: bool,
)
    requires
        old(model).wf(tied),
        params@.len() == old(model).flat(tied).len(),
    ensures
        holds_params(*ops, *old(model), params@, tied, *final(model)),
{
    place_params(ops, model, params, tied);
    let ghost placed = *model;
    if model.learnable_ode {
        settle_blocks(ops, &mut model.blocks);
    }
    if model.use_layer_scale {
        model.layer_scale = lift_scales(ops, &model.layer_scale);
    }
    proof {
        lemma_holds_params(*ops, *old(model), params@, tied, placed, *model);
    }
}

/// What is placed entry by entry and then kept within bounds holds the parameters.
proof fn lemma_holds_params<T: Copy, A: Arith<T>>(
    ops: A,
    before: WavePacketModel<T>,
    params: Seq<T>,
    tied: bool,
    placed: WavePacketModel<T>,
    after: WavePacketModel<T>,
)
    requires
        before.wf(tied),
        placed.wf(tied),
        placed.same_frame(&before, tied),
        placed.flat(tied) == params,
        tables_follow(ops, placed),
        after == (WavePacketModel {
            blocks: after.blocks,
            layer_scale: after.layer_scale,
            ..placed
        }),
        after.blocks@.len() == placed.blocks@.len(),
        if before.learnable_ode {
            forall|b: int|
                0 <= b < placed.blocks@.len() ==> settled(
                    ops,
                    placed.blocks@[b],
                    #[trigger] after.blocks@[b],
                )
        } else {
            after.blocks == placed.blocks
        },
        after.layer_scale@.len() == placed.layer_scale@.len(),
        if before.use_layer_scale {
            forall|l: int|
                0 <= l < placed.layer_scale@.len() ==> fits(
                    ops,
                    kept_scale(placed.layer_scale@[l]),
                    #[trigger] after.layer_scale@[l],
                )
        } else {
            after.layer_scale == placed.layer_scale
        },
    ensures
        holds_params(ops, before, params, tied, after),
{
    let learnable = before.learnable_ode;
    let (n, m) = (before.n_embd(), before.maestro_dim());
    let count = before.blocks@.len() as int;
    let flat = blocks_flat(placed.blocks@, learnable);
    let at1 = blocks_flat(before.blocks@, learnable).len() as int;
    assert(placed.blocks@.subrange(0, count) =~= placed.blocks@);
    assert(before.blocks@.subrange(0, count) =~= before.blocks@);
    lemma_same_starts(placed.blocks@, before.blocks@, n, m, learnable, count);
    assert(flat.len() == at1);
    let at2 = at1 + before.scale_flat().len();
    before.lemma_decoder_len(tied);
    placed.lemma_decoder_len(tied);
    assert(params.subrange(0, at1) =~= flat);
    assert(params.subrange(at1, at2) =~= placed.scale_flat());
    assert(params.subrange(at2, at2 + n) =~= placed.ln_f.weight@);
    assert(params.subrange(at2 + n, at2 + 2 * n) =~= placed.ln_f.bias@);
    assert(params.subrange(at2 + 2 * n, params.len() as int) =~= placed.decoder_flat(tied));
    if before.use_layer_scale {
        assert forall|l: int| 0 <= l < before.layer_scale@.len() implies fits(
            ops,
            kept_scale(params[at1 + l]),
            #[trigger] after.layer_scale@[l],
        ) by {
            assert(params[at1 + l] == params.subrange(at1, at2)[l]);
        }
    }
    assert forall|b: int| 0 <= b < count implies (#[trigger] after.blocks@[b]).wf(n, m)
        && after.blocks@[b].same_frame(&before.blocks@[b], learnable) && block_holds(
        ops,
        after.blocks@[b],
        params.subrange(
            block_start(before.blocks@, learnable, b),
            block_start(before.blocks@, learnable, b + 1),
        ),
        learnable,
    ) by {
        lemma_same_starts(placed.blocks@, before.blocks@, n, m, learnable, b);
        lemma_same_starts(placed.blocks@, before.blocks@, n, m, learnable, b + 1);
        lemma_block_piece(placed.blocks@, learnable, b, count);
        let (from, to) = (
            block_start(before.blocks@, learnable, b),
            block_start(before.blocks@, learnable, b + 1),
        );
        assert(params.subrange(from, to) =~= flat.subrange(from, to));
        assert(placed.blocks@[b].wf(n, m));
        assert(placed.blocks@[b].same_frame(&before.blocks@[b], learnable));
        if learnable {
            lemma_settled(ops, placed.blocks@[b], after.blocks@[b]);
            reveal(WaveBlockWeights::same_frame);
        }
    }
    assert(blocks_wf(after.blocks@, n, m));
    assert(after.blocks@[0].wf(n, m));
    assert(after.decoder_flat(tied) == placed.decoder_flat(tied));
}

/// Blocks of one shape flatten to the same number of entries.
proof fn lemma_block_same_len<T>(
    a: WaveBlockWeights<T>,
    b: WaveBlockWeights<T>,
    n_embd: int,
    maestro_dim: int,
    learnable_ode: bool,
)
    requires
        a.wf(n_embd, maestro_dim),
        b.wf(n_embd, maestro_dim),
        a.same_frame(&b, learnable_ode),
    ensures
        a.flat(learnable_ode).len() == b.flat(learnable_ode).len(),
{
    reveal(WaveBlockWeights::same_frame);
    a.lemma_flat_len(n_embd, maestro_dim, learnable_ode);
    b.lemma_flat_len(n_embd, maestro_dim, learnable_ode);
}

/// Equal concatenations with equally long fronts have equal parts.
proof fn lemma_split<T>(a: Seq<T>, x: Seq<T>, b: Seq<T>, y: Seq<T>)
    requires
        a + x == b + y,
        a.len() == b.len(),
    ensures
        a == b,
        x == y,
{
    let n = a.len() as int;
    let m = (a + x).len() as int;
    assert((a + x).len() == (b + y).len());
    assert((a + x).subrange(0, n) =~= a);
    assert((b + y).subrange(0, n) =~= b);
    assert((a + x).subrange(n, m) =~= x);
    assert((b + y).subrange(n, m) =~= y);
}

/// Blocks of one shape that flatten alike hold the same parameters.
proof fn lemma_block_injective<T>(
    a: WaveBlockWeights<T>,
    b: WaveBlockWeights<T>,
    n_embd: int,
    maestro_dim: int,
    learnable_ode: bool,
)
    requires
        n_embd >= 0,
        maestro_dim >= 0,
        a.wf(n_embd, maestro_dim),
        b.wf(n_embd, maestro_dim),
        a.same_frame(&b, learnable_ode),
        a.flat(learnable_ode) == b.flat(learnable_ode),
    ensures
        a.same_params(&b, learnable_ode),
{
    lemma_block_same_len(a, b, n_embd, maestro_dim, learnable_ode);
    reveal(WaveBlockWeights::same_frame);
    reveal(WaveBlockWeights::flat);
    a.ffn.maestro_in.squeeze.lemma_flat_len(maestro_dim, n_embd);
    a.ffn.maestro_in.process_1.lemma_flat_len(n_embd, maestro_dim);
    a.ffn.maestro_out.squeeze.lemma_flat_len(maestro_dim, n_embd);
    a.ffn.maestro_out.process_1.lemma_flat_len(n_embd, maestro_dim);
    b.ffn.maestro_in.squeeze.lemma_flat_len(maestro_dim, n_embd);
    b.ffn.maestro_in.process_1.lemma_flat_len(n_embd, maestro_dim);
    b.ffn.maestro_out.squeeze.lemma_flat_len(maestro_dim, n_embd);
    b.ffn.maestro_out.process_1.lemma_flat_len(n_embd, maestro_dim);
    a.ffn.out_proj.lemma_flat_len();
    b.ffn.out_proj.lemma_flat_len();
    let na = a.norms_flat();
    let nb = b.norms_flat();
    let ia = maestro_flat(a.ffn.maestro_in);
    let ib = maestro_flat(b.ffn.maestro_in);
    let oa = maestro_flat(a.ffn.maestro_out);
    let ob = maestro_flat(b.ffn.maestro_out);
    let pa = a.ffn.out_proj.flat();
    let pb = b.ffn.out_proj.flat();
    lemma_split(
        na + ia + oa + pa,
        a.ode_flat(learnable_ode),
        nb + ib + ob + pb,
        b.ode_flat(learnable_ode),
    );
    lemma_split(na + ia + oa, pa, nb + ib + ob, pb);
    lemma_split(na + ia, oa, nb + ib, ob);
    lemma_split(na, ia, nb, ib);
    lemma_split(
        a.ffn.maestro_in.squeeze.flat(),
        a.ffn.maestro_in.process_1.flat(),
        b.ffn.maestro_in.squeeze.flat(),
        b.ffn.maestro_in.process_1.flat(),
    );
    lemma_split(
        a.ffn.maestro_out.squeeze.flat(),
        a.ffn.maestro_out.process_1.flat(),
        b.ffn.maestro_out.squeeze.flat(),
        b.ffn.maestro_out.process_1.flat(),
    );
    lemma_split(
        a.ln.weight@ + a.ln.bias@ + a.ln_ffn.weight@,
        a.ln_ffn.bias@,
        b.ln.weight@ + b.ln.bias@ + b.ln_ffn.weight@,
        b.ln_ffn.bias@,
    );
    lemma_split(
        a.ln.weight@ + a.ln.bias@,
        a.ln_ffn.weight@,
        b.ln.weight@ + b.ln.bias@,
        b.ln_ffn.weight@,
    );
    lemma_split(a.ln.weight@, a.ln.bias@, b.ln.weight@, b.ln.bias@);
    if learnable_ode {
        let ab = seq![a.ffn.kerr.alpha, a.ffn.kerr.beta];
        let bb = seq![b.ffn.kerr.alpha, b.ffn.kerr.beta];
        lemma_split(
            a.ffn.kerr.gamma_raw@ + ab,
            a.ffn.kerr.phase_correction@,
            b.ffn.kerr.gamma_raw@ + bb,
            b.ffn.kerr.phase_correction@,
        );
        lemma_split(a.ffn.kerr.gamma_raw@, ab, b.ffn.kerr.gamma_raw@, bb);
        assert(ab[0] == bb[0] && ab[1] == bb[1]);
    }
}

/// Lists of blocks of one shape that flatten alike hold the same parameters.
proof fn lemma_blocks_injective<T>(
    a: Seq<WaveBlockWeights<T>>,
    b: Seq<WaveBlockWeights<T>>,
    n_embd: int,
    maestro_dim: int,
    learnable_ode: bool,
)
    requires
        n_embd >= 0,
        maestro_dim >= 0,
        a.len() == b.len(),
        blocks_wf(a, n_embd, maestro_dim),
        blocks_wf(b, n_embd, maestro_dim),
        forall|k: int| 0 <= k < a.len() ==> (#[trigger] a[k]).same_frame(&b[k], learnable_ode),
        blocks_flat(a, learnable_ode) == blocks_flat(b, learnable_ode),
    ensures
        forall|k: int| 0 <= k < a.len() ==> (#[trigger] a[k]).same_params(&b[k], learnable_ode),
    decreases a.len(),
{
    if a.len() > 0 {
        let last = a.len() - 1;
        let la = a[last].flat(learnable_ode);
        let lb = b[last].flat(learnable_ode);
        lemma_block_same_len(a[last], b[last], n_embd, maestro_dim, learnable_ode);
        let fa = blocks_flat(a.drop_last(), learnable_ode);
        let fb = blocks_flat(b.drop_last(), learnable_ode);
        assert(blocks_flat(a, learnable_ode) == fa + la);
        assert(blocks_flat(b, learnable_ode) == fb + lb);
        assert(fa.len() == fb.len());
        assert((fa + la).subrange(0, fa.len() as int) =~= fa);
        assert((fb + lb).subrange(0, fa.len() as int) =~= fb);
        assert((fa + la).subrange(fa.len() as int, (fa.len() + la.len()) as int) =~= la);
        assert((fb + lb).subrange(fa.len() as int, (fa.len() + la.len()) as int) =~= lb);
        lemma_block_injective(a[last], b[last], n_embd, maestro_dim, learnable_ode);
        assert forall|k: int| 0 <= k < last implies (#[trigger] a.drop_last()[k]).same_frame(
            &b.drop_last()[k],
            learnable_ode,
        ) by {
            assert(a[k].same_frame(&b[k], learnable_ode));
        }
        assert forall|k: int| 0 <= k < last implies (#[trigger] a.drop_last()[k]).wf(
            n_embd,
            maestro_dim,
        ) && b.drop_last()[k].wf(n_embd, maestro_dim) by {
            assert(a[k].wf(n_embd, maestro_dim));
            assert(b[k].wf(n_embd, maestro_dim));
        }
        lemma_blocks_injective(
            a.drop_last(),
            b.drop_last(),
            n_embd,
            maestro_dim,
            learnable_ode,
        );
        assert forall|k: int| 0 <= k < a.len() implies (#[trigger] a[k]).same_params(
            &b[k],
            learnable_ode,
        ) by {
            if k < last {
                assert(a.drop_last()[k].same_params(&b.drop_last()[k], learnable_ode));
            }
        }
    }
}

/// A model is determined by its frame and its flat parameters.
pub proof fn law_flat_determines_model<T>(
    before: WavePacketModel<T>,
    after: WavePacketModel<T>,
    tied: bool,
)
    requires
        before.wf(tied),
        after.wf(tied),
        after.same_frame(&before, tied),
        after.flat(tied) == before.flat(tied),
    ensures
        forall|b: int|
            0 <= b < after.blocks@.len() ==> (#[trigger] after.blocks@[b]).same_params(
                &before.blocks@[b],
                after.learnable_ode,
            ),
        after.layer_scale@ == before.layer_scale@,
        after.ln_f.weight@ == before.ln_f.weight@,
        after.ln_f.bias@ == before.ln_f.bias@,
        after.decoder_flat(tied) == before.decoder_flat(tied),
{
    let fa = blocks_flat(after.blocks@, after.learnable_ode);
    let fb = blocks_flat(before.blocks@, before.learnable_ode);
    after.lemma_decoder_len(tied);
    before.lemma_decoder_len(tied);
    assert(after.decoder_flat(tied).len() == before.decoder_flat(tied).len());
    let total = after.flat(tied).len() as int;
    let nd = after.decoder_flat(tied).len() as int;
    let ne = after.n_embd();
    let ns = after.scale_flat().len() as int;
    let n0 = fa.len() as int;
    assert(fb.len() == n0);
    assert(after.flat(tied).subrange(0, n0) =~= fa);
    assert(before.flat(tied).subrange(0, n0) =~= fb);
    assert(after.flat(tied).subrange(n0, n0 + ns) =~= after.scale_flat());
    assert(before.flat(tied).subrange(n0, n0 + ns) =~= before.scale_flat());
    assert(after.flat(tied).subrange(n0 + ns, n0 + ns + ne) =~= after.ln_f.weight@);
    assert(before.flat(tied).subrange(n0 + ns, n0 + ns + ne) =~= before.ln_f.weight@);
    assert(after.flat(tied).subrange(n0 + ns + ne, n0 + ns + 2 * ne) =~= after.ln_f.bias@);
    assert(before.flat(tied).subrange(n0 + ns + ne, n0 + ns + 2 * ne) =~= before.ln_f.bias@);
    assert(after.flat(tied).subrange(total - nd, total) =~= after.decoder_flat(tied));
    assert(before.flat(tied).subrange(total - nd, total) =~= before.decoder_flat(tied));
    lemma_blocks_injective(
        after.blocks@,
        before.blocks@,
        ne,
        after.maestro_dim(),
        after.learnable_ode,
    );
}

/// Writing a model's own flat parameters back changes none of them, but that the couplings of
/// the ODE and the layer scales are kept within their bounds.
pub proof fn law_unflatten_undoes_flatten<T: Copy, A: Arith<T>>(
    ops: A,
    before: WavePacketModel<T>,
    after: WavePacketModel<T>,
    tied: bool,
)
    requires
        before.wf(tied),
        holds_params(ops, before, before.flat(tied), tied, after),
    ensures
        forall|b: int|
            0 <= b < after.blocks@.len() ==> {
                let new = #[trigger] after.blocks@[b];
                let old_one = before.blocks@[b];
                &&& new.same_params(
                    &recoupled(old_one, new.ffn.kerr.alpha, new.ffn.kerr.beta),
                    before.learnable_ode,
                )
                &&& before.learnable_ode ==> {
                    &&& fits(ops, kept_alpha(old_one.ffn.kerr.alpha), new.ffn.kerr.alpha)
                    &&& fits(ops, kept_beta(old_one.ffn.kerr.beta), new.ffn.kerr.beta)
                }
            },
        if before.use_layer_scale {
            forall|l: int|
                0 <= l < before.layer_scale@.len() ==> fits(
                    ops,
                    kept_scale(before.layer_scale@[l]),
                    #[trigger] after.layer_scale@[l],
                )
        } else {
            after.layer_scale == before.layer_scale
        },
        after.ln_f.weight@ == before.ln_f.weight@,
        after.ln_f.bias@ == before.ln_f.bias@,
        after.decoder_flat(tied) == before.decoder_flat(tied),
{
    let learnable = before.learnable_ode;
    let params = before.flat(tied);
    let flat = blocks_flat(before.blocks@, learnable);
    let count = before.blocks@.len() as int;
    let at1 = flat.len() as int;
    let at2 = at1 + before.scale_flat().len();
    let (n, m) = (before.n_embd(), before.maestro_dim());
    assert(before.blocks@.subrange(0, count) =~= before.blocks@);
    assert(params.subrange(at1, at2) =~= before.scale_flat());
    assert(params.subrange(at2, at2 + n) =~= before.ln_f.weight@);
    assert(params.subrange(at2 + n, at2 + 2 * n) =~= before.ln_f.bias@);
    assert(params.subrange(at2 + 2 * n, params.len() as int) =~= before.decoder_flat(tied));
    if before.use_layer_scale {
        assert forall|l: int| 0 <= l < before.layer_scale@.len() implies fits(
            ops,
            kept_scale(before.layer_scale@[l]),
            #[trigger] after.layer_scale@[l],
        ) by {
            assert(params[at1 + l] == params.subrange(at1, at2)[l]);
        }
    }
    assert forall|b: int| 0 <= b < count implies {
        let new = #[trigger] after.blocks@[b];
        let old_one = before.blocks@[b];
        &&& new.same_params(
            &recoupled(old_one, new.ffn.kerr.alpha, new.ffn.kerr.beta),
            before.learnable_ode,
        )
        &&& before.learnable_ode ==> {
            &&& fits(ops, kept_alpha(old_one.ffn.kerr.alpha), new.ffn.kerr.alpha)
            &&& fits(ops, kept_beta(old_one.ffn.kerr.beta), new.ffn.kerr.beta)
        }
    } by {
        lemma_block_piece(before.blocks@, learnable, b, count);
        let (from, to) = (
            block_start(before.blocks@, learnable, b),
            block_start(before.blocks@, learnable, b + 1),
        );
        assert(params.subrange(from, to) =~= flat.subrange(from, to));
        let new = after.blocks@[b];
        assert(before.blocks@[b].wf(n, m) && new.wf(n, m));
        assert(new.same_frame(&before.blocks@[b], learnable));
        lemma_written_back(ops, before.blocks@[b], new, n, m, learnable);
    }
}

/// A block that holds another's flat parameters is that block, but for its couplings.
proof fn lemma_written_back<T: Copy, A: Arith<T>>(
    ops: A,
    before: WaveBlockWeights<T>,
    after: WaveBlockWeights<T>,
    n_embd: int,
    maestro_dim: int,
    learnable_ode: bool,
)
    requires
        n_embd >= 0,
        maestro_dim >= 0,
        before.wf(n_embd, maestro_dim),
        after.wf(n_embd, maestro_dim),
        after.same_frame(&before, learnable_ode),
        block_holds(ops, after, before.flat(learnable_ode), learnable_ode),
    ensures
        after.same_params(
            &recoupled(before, after.ffn.kerr.alpha, after.ffn.kerr.beta),
            learnable_ode,
        ),
        learnable_ode ==> fits(
            ops,
            kept_alpha(before.ffn.kerr.alpha),
            after.ffn.kerr.alpha,
        ) && fits(ops, kept_beta(before.ffn.kerr.beta), after.ffn.kerr.beta),
{
    let mid = recoupled(before, after.ffn.kerr.alpha, after.ffn.kerr.beta);
    lemma_block_same_len(after, before, n_embd, maestro_dim, learnable_ode);
    assert(after.flat(learnable_ode) == mid.flat(learnable_ode)) by {
        reveal(WaveBlockWeights::flat);
        reveal(WaveBlockWeights::same_frame);
        let front = before.norms_flat() + maestro_flat(before.ffn.maestro_in) + maestro_flat(
            before.ffn.maestro_out,
        ) + before.ffn.out_proj.flat();
        assert(before.flat(learnable_ode) == front + before.ode_flat(learnable_ode));
        assert(mid.flat(learnable_ode) == front + mid.ode_flat(learnable_ode));
        let at = front.len() + before.ffn.kerr.gamma_raw@.len();
        after.lemma_flat_len(n_embd, maestro_dim, learnable_ode);
        lemma_couplings_stand(after, learnable_ode);
        assert(after.flat(learnable_ode) =~= mid.flat(learnable_ode));
    }
    assert(after.same_frame(&mid, learnable_ode)) by {
        reveal(WaveBlockWeights::same_frame);
    }
    lemma_block_injective(after, mid, n_embd, maestro_dim, learnable_ode);
    if learnable_ode {
        lemma_couplings_stand(before, true);
        reveal(WaveBlockWeights::same_frame);
    }
}

/// The couplings of a block stand before the corrections of its phases.
proof fn lemma_couplings_stand<T>(block: WaveBlockWeights<T>, learnable_ode: bool)
    ensures
        learnable_ode ==> ({
            let flat = block.flat(true);
            let at = flat.len() - block.ffn.kerr.phase_correction@.len() - 2;
            &&& 0 <= at
            &&& flat[at] == block.ffn.kerr.alpha
            &&& flat[at + 1] == block.ffn.kerr.beta
        }),
{
    reveal(WaveBlockWeights::flat);
}

/// Where the first coupling of block `b` stands in the flat layout; the second is next to it.
pub open spec fn coupling_place<T>(model: WavePacketModel<T>, b: int) -> int {
    block_start(model.blocks@, model.learnable_ode, b + 1)
        - model.blocks@[b].ffn.kerr.phase_correction@.len() - 2
}

/// Where the layer scales start in the flat layout.
pub open spec fn scale_place<T>(model: WavePacketModel<T>) -> int {
    blocks_flat(model.blocks@, model.learnable_ode).len() as int
}

/// An entry of the flat layout that is kept within bounds: a coupling or a layer scale.
pub open spec fn is_bounded<T>(model: WavePacketModel<T>, i: int) -> bool {
    ||| model.learnable_ode && exists|b: int|
        0 <= b < model.blocks@.len() && (i == #[trigger] coupling_place(model, b) || i
            == coupling_place(model, b) + 1)
    ||| scale_place(model) <= i < scale_place(model) + model.scale_flat().len()
}

/// Every entry of the blocks stands in one of them.
proof fn lemma_block_of<T>(
    blocks: Seq<WaveBlockWeights<T>>,
    learnable_ode: bool,
    i: int,
    n: int,
) -> (b: int)
    requires
        0 <= n <= blocks.len(),
        0 <= i < block_start(blocks, learnable_ode, n),
    ensures
        0 <= b < n,
        block_start(blocks, learnable_ode, b) <= i < block_start(blocks, learnable_ode, b + 1),
    decreases n,
{
    if n == 0 {
        assert(blocks.subrange(0, 0) =~= Seq::empty());
        0
    } else if block_start(blocks, learnable_ode, n - 1) <= i {
        n - 1
    } else {
        lemma_block_of(blocks, learnable_ode, i, n - 1)
    }
}

/// Parameters that were written into a model come back when it is flattened, but for couplings and
/// layer scales, which come back within their bounds.
#[verifier::spinoff_prover]
pub proof fn law_flatten_gives_back<T: Copy, A: Arith<T>>(
    ops: A,
    before: WavePacketModel<T>,
    params: Seq<T>,
    after: WavePacketModel<T>,
    tied: bool,
)
    requires
        before.wf(tied),
        params.len() == before.flat(tied).len(),
        holds_params(ops, before, params, tied, after),
    ensures
        after.flat(tied).len() == params.len(),
        forall|i: int|
            0 <= i < params.len() && !is_bounded(before, i) ==> #[trigger] after.flat(tied)[i]
                == params[i],
        before.learnable_ode ==> forall|b: int|
            0 <= b < before.blocks@.len() ==> {
                let at = #[trigger] coupling_place(before, b);
                &&& fits(ops, kept_alpha(params[at]), after.flat(tied)[at])
                &&& fits(ops, kept_beta(params[at + 1]), after.flat(tied)[at + 1])
            },
        before.use_layer_scale ==> forall|l: int|
            0 <= l < before.layer_scale@.len() ==> fits(
                ops,
                kept_scale(params[scale_place(before) + l]),
                #[trigger] after.flat(tied)[scale_place(before) + l],
            ),
{
    let learnable = before.learnable_ode;
    let count = before.blocks@.len() as int;
    let (n, m) = (before.n_embd(), before.maestro_dim());
    let (old_flat, new_flat) = (
        blocks_flat(before.blocks@, learnable),
        blocks_flat(after.blocks@, learnable),
    );
    let at1 = old_flat.len() as int;
    let at2 = at1 + before.scale_flat().len();
    let flat = after.flat(tied);
    assert(before.blocks@.subrange(0, count) =~= before.blocks@);
    assert(after.blocks@.subrange(0, count) =~= after.blocks@);
    lemma_same_starts(after.blocks@, before.blocks@, n, m, learnable, count);
    assert(new_flat.len() == at1);
    assert(after.scale_flat().len() == before.scale_flat().len());
    let rest = params.subrange(at2 + 2 * n, params.len() as int);
    assert(after.decoder_flat(tied) == rest);
    assert(flat.len() == params.len());
    assert forall|i: int| at2 <= i < params.len() implies #[trigger] flat[i] == params[i] by {
        if i < at2 + n {
            assert(flat[i] == after.ln_f.weight@[i - at2]);
        } else if i < at2 + 2 * n {
            assert(flat[i] == after.ln_f.bias@[i - at2 - n]);
        } else {
            assert(flat[i] == after.decoder_flat(tied)[i - at2 - 2 * n]);
        }
    }
    assert forall|i: int| 0 <= i < at1 && !is_bounded(before, i) implies #[trigger] flat[i]
        == params[i] by {
        let b = lemma_block_of(before.blocks@, learnable, i, count);
        lemma_block_entry(ops, before, params, after, tied, b, i);
        assert(flat[i] == new_flat[i]);
        if learnable {
            assert(i != coupling_place(before, b) && i != coupling_place(before, b) + 1);
        }
    }
    if learnable {
        assert forall|b: int| 0 <= b < count implies {
            let at = #[trigger] coupling_place(before, b);
            &&& fits(ops, kept_alpha(params[at]), flat[at])
            &&& fits(ops, kept_beta(params[at + 1]), flat[at + 1])
        } by {
            let at = coupling_place(before, b);
            lemma_coupling_entries(ops, before, params, after, tied, b);
            assert(flat[at] == new_flat[at] && flat[at + 1] == new_flat[at + 1]);
        }
    }
    if before.use_layer_scale {
        assert forall|l: int| 0 <= l < before.layer_scale@.len() implies fits(
            ops,
            kept_scale(params[at1 + l]),
            #[trigger] flat[at1 + l],
        ) by {
            assert(flat[at1 + l] == after.layer_scale@[l]);
        }
    }
}

/// An entry of a block that is not a coupling is written as it is.
#[verifier::spinoff_prover]
proof fn lemma_block_entry<T: Copy, A: Arith<T>>(
    ops: A,
    before: WavePacketModel<T>,
    params: Seq<T>,
    after: WavePacketModel<T>,
    tied: bool,
    b: int,
    i: int,
)
    requires
        before.wf(tied),
        params.len() == before.flat(tied).len(),
        holds_params(ops, before, params, tied, after),
        0 <= b < before.blocks@.len(),
        block_start(before.blocks@, before.learnable_ode, b) <= i < block_start(
            before.blocks@,
            before.learnable_ode,
            b + 1,
        ),
        before.learnable_ode ==> i != coupling_place(before, b) && i != coupling_place(before, b)
            + 1,
    ensures
        blocks_flat(after.blocks@, before.learnable_ode)[i] == params[i],
{
    let learnable = before.learnable_ode;
    let count = before.blocks@.len() as int;
    let (n, m) = (before.n_embd(), before.maestro_dim());
    assert(before.blocks@.subrange(0, count) =~= before.blocks@);
    assert(after.blocks@.subrange(0, count) =~= after.blocks@);
    lemma_same_starts(after.blocks@, before.blocks@, n, m, learnable, b);
    lemma_same_starts(after.blocks@, before.blocks@, n, m, learnable, b + 1);
    lemma_block_piece(after.blocks@, learnable, b, count);
    lemma_block_piece(before.blocks@, learnable, b, count);
    let (from, to) = (
        block_start(before.blocks@, learnable, b),
        block_start(before.blocks@, learnable, b + 1),
    );
    let new = after.blocks@[b];
    let piece = params.subrange(from, to);
    assert(block_holds(ops, new, piece, learnable));
    assert(new.same_frame(&before.blocks@[b], learnable));
    reveal(WaveBlockWeights::same_frame);
    let all = blocks_flat(after.blocks@, learnable);
    assert(all.subrange(from, to)[i - from] == all[i]);
    assert(new.flat(learnable)[i - from] == piece[i - from]);
}

/// The couplings of a block are written within their bounds.
#[verifier::spinoff_prover]
proof fn lemma_coupling_entries<T: Copy, A: Arith<T>>(
    ops: A,
    before: WavePacketModel<T>,
    params: Seq<T>,
    after: WavePacketModel<T>,
    tied: bool,
    b: int,
)
    requires
        before.wf(tied),
        params.len() == before.flat(tied).len(),
        holds_params(ops, before, params, tied, after),
        0 <= b < before.blocks@.len(),
        before.learnable_ode,
    ensures
        ({
            let at = coupling_place(before, b);
            let all = blocks_flat(after.blocks@, true);
            &&& 0 <= at && at + 1 < all.len()
            &&& fits(ops, kept_alpha(params[at]), all[at])
            &&& fits(ops, kept_beta(params[at + 1]), all[at + 1])
        }),
{
    let count = before.blocks@.len() as int;
    let (n, m) = (before.n_embd(), before.maestro_dim());
    assert(before.blocks@.subrange(0, count) =~= before.blocks@);
    assert(after.blocks@.subrange(0, count) =~= after.blocks@);
    lemma_same_starts(after.blocks@, before.blocks@, n, m, true, b);
    lemma_same_starts(after.blocks@, before.blocks@, n, m, true, b + 1);
    lemma_block_piece(after.blocks@, true, b, count);
    lemma_block_piece(before.blocks@, true, b, count);
    let (from, to) = (
        block_start(before.blocks@, true, b),
        block_start(before.blocks@, true, b + 1),
    );
    let new = after.blocks@[b];
    let piece = params.subrange(from, to);
    assert(block_holds(ops, new, piece, true));
    assert(new.same_frame(&before.blocks@[b], true));
    reveal(WaveBlockWeights::same_frame);
    lemma_couplings_stand(new, true);
    let all = blocks_flat(after.blocks@, true);
    let at = coupling_place(before, b);
    assert(new.flat(true).len() == to - from);
    assert(all.subrange(from, to)[at - from] == all[at]);
    assert(all.subrange(from, to)[at + 1 - from] == all[at + 1]);
    assert(piece[at - from] == params[at] && piece[at + 1 - from] == params[at + 1]);
}

} // verus!
