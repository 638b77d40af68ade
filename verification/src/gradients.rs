//! Gradient accumulators and their flat layout.
//!
//! The optimiser pairs gradient `i` with parameter `i`, so the accumulators are
//! written out in the order of the parameters.

use vstd::prelude::*;
use crate::config::Dims;
use crate::seqs::{extend_from, extend_rows, filled, filled_rows};
use crate::seqs::{lemma_rows_flat_len, rows_flat, rows_width};
use crate::wave_decode::{self, WaveDecodeGrads};
use crate::wave_model::{blocks_flat, lemma_blocks_flat_step, WavePacketModel};
use crate::weights::OutProjWeights;

verus! {

/// Gradients of all trained parameters; the first index of a per-block field is
/// the block.
pub struct Gradients<T> {
    pub block_ln_w: Vec<Vec<T>>,
    pub block_ln_b: Vec<Vec<T>>,
    pub block_ln_ffn_w: Vec<Vec<T>>,
    pub block_ln_ffn_b: Vec<Vec<T>>,
    pub block_ffn_kerr_gamma_raw: Vec<Vec<T>>,
    pub block_ffn_kerr_omega: Vec<Vec<T>>,
    pub block_ffn_kerr_alpha: Vec<T>,
    pub block_ffn_kerr_beta: Vec<T>,
    pub block_ffn_phase_correction: Vec<Vec<T>>,
    pub block_ffn_mae_in_sq_w: Vec<Vec<Vec<T>>>,
    pub block_ffn_mae_in_sq_b: Vec<Vec<T>>,
    pub block_ffn_mae_in_pr_w: Vec<Vec<Vec<T>>>,
    pub block_ffn_mae_in_pr_b: Vec<Vec<T>>,
    pub block_ffn_mae_out_sq_w: Vec<Vec<Vec<T>>>,
    pub block_ffn_mae_out_sq_b: Vec<Vec<T>>,
    pub block_ffn_mae_out_pr_w: Vec<Vec<Vec<T>>>,
    pub block_ffn_mae_out_pr_b: Vec<Vec<T>>,
    pub block_ffn_out_proj_w: Vec<Vec<Vec<T>>>,
    pub block_ffn_out_proj_b: Vec<Vec<T>>,
    pub ln_f_w: Vec<T>,
    pub ln_f_b: Vec<T>,
    pub lm_head: Vec<Vec<T>>,
    pub lm_down: Vec<Vec<T>>,
    pub lm_up: Vec<Vec<T>>,
    pub tied_temperature: T,
    pub layer_scale: Vec<T>,
    pub d_output_corrector: Vec<T>,
    pub wd_grads: Option<WaveDecodeGrads<T>>,
}

/// `n` matrices of `rows` rows of `width` entries.
pub open spec fn stack_shaped<T>(m: Seq<Vec<Vec<T>>>, n: int, rows: int, width: int) -> bool {
    &&& m.len() == n
    &&& forall|b: int|
        0 <= b < n ==> (#[trigger] m[b])@.len() == rows && rows_width(m[b]@, width)
}

/// `n` rows of `width` entries.
pub open spec fn table_shaped<T>(m: Seq<Vec<T>>, n: int, width: int) -> bool {
    &&& m.len() == n
    &&& rows_width(m, width)
}

/// Every entry of a table is `zero`.
pub open spec fn table_filled<T>(m: Seq<Vec<T>>, zero: T) -> bool {
    forall|i: int, j: int|
        0 <= i < m.len() && 0 <= j < m[i]@.len() ==> #[trigger] m[i]@[j] == zero
}

/// Every entry of a stack of matrices is `zero`.
pub open spec fn stack_filled<T>(m: Seq<Vec<Vec<T>>>, zero: T) -> bool {
    forall|b: int| 0 <= b < m.len() ==> table_filled((#[trigger] m[b])@, zero)
}

/// Every entry of a vector is `zero`.
pub open spec fn vec_filled<T>(v: Seq<T>, zero: T) -> bool {
    forall|i: int| 0 <= i < v.len() ==> #[trigger] v[i] == zero
}

impl<T> Gradients<T> {
    /// Nothing has been accumulated yet.
    pub open spec fn all_zero(&self, zero: T) -> bool {
        &&& table_filled(self.block_ln_w@, zero)
        &&& table_filled(self.block_ln_b@, zero)
        &&& table_filled(self.block_ln_ffn_w@, zero)
        &&& table_filled(self.block_ln_ffn_b@, zero)
        &&& table_filled(self.block_ffn_kerr_gamma_raw@, zero)
        &&& table_filled(self.block_ffn_kerr_omega@, zero)
        &&& vec_filled(self.block_ffn_kerr_alpha@, zero)
        &&& vec_filled(self.block_ffn_kerr_beta@, zero)
        &&& table_filled(self.block_ffn_phase_correction@, zero)
        &&& stack_filled(self.block_ffn_mae_in_sq_w@, zero)
        &&& table_filled(self.block_ffn_mae_in_sq_b@, zero)
        &&& stack_filled(self.block_ffn_mae_in_pr_w@, zero)
        &&& table_filled(self.block_ffn_mae_in_pr_b@, zero)
        &&& stack_filled(self.block_ffn_mae_out_sq_w@, zero)
        &&& table_filled(self.block_ffn_mae_out_sq_b@, zero)
        &&& stack_filled(self.block_ffn_mae_out_pr_w@, zero)
        &&& table_filled(self.block_ffn_mae_out_pr_b@, zero)
        &&& stack_filled(self.block_ffn_out_proj_w@, zero)
        &&& table_filled(self.block_ffn_out_proj_b@, zero)
        &&& vec_filled(self.ln_f_w@, zero)
        &&& vec_filled(self.ln_f_b@, zero)
        &&& table_filled(self.lm_head@, zero)
        &&& table_filled(self.lm_down@, zero)
        &&& table_filled(self.lm_up@, zero)
        &&& self.tied_temperature == zero
        &&& vec_filled(self.layer_scale@, zero)
        &&& self.d_output_corrector@.len() == 0
        &&& self.wd_grads is None
    }

    /// The per-block accumulators of `n` blocks with the given dimensions.
    pub open spec fn blocks_shaped(&self, n: int, d: Dims) -> bool {
        let e = d.n_embd as int;
        let m = d.maestro_dim as int;
        let ode = if d.learnable_ode {
            d.n_bands as int
        } else {
            0
        };
        &&& table_shaped(self.block_ln_w@, n, e)
        &&& table_shaped(self.block_ln_b@, n, e)
        &&& table_shaped(self.block_ln_ffn_w@, n, e)
        &&& table_shaped(self.block_ln_ffn_b@, n, e)
        &&& table_shaped(self.block_ffn_kerr_gamma_raw@, n, ode)
        &&& table_shaped(self.block_ffn_kerr_omega@, n, d.n_bands as int)
        &&& self.block_ffn_kerr_alpha@.len() == n
        &&& self.block_ffn_kerr_beta@.len() == n
        &&& table_shaped(self.block_ffn_phase_correction@, n, ode)
        &&& stack_shaped(self.block_ffn_mae_in_sq_w@, n, m, e)
        &&& table_shaped(self.block_ffn_mae_in_sq_b@, n, m)
        &&& stack_shaped(self.block_ffn_mae_in_pr_w@, n, e, m)
        &&& table_shaped(self.block_ffn_mae_in_pr_b@, n, e)
        &&& stack_shaped(self.block_ffn_mae_out_sq_w@, n, m, e)
        &&& table_shaped(self.block_ffn_mae_out_sq_b@, n, m)
        &&& stack_shaped(self.block_ffn_mae_out_pr_w@, n, e, m)
        &&& table_shaped(self.block_ffn_mae_out_pr_b@, n, e)
        &&& stack_shaped(self.block_ffn_out_proj_w@, n, e, e)
        &&& table_shaped(self.block_ffn_out_proj_b@, n, e)
    }

    /// The accumulators outside the blocks: a full head is kept only where the
    /// model decodes through one, low-rank factors only where there is a rank.
    pub open spec fn rest_shaped(
        &self,
        n: int,
        d: Dims,
        vocab_size: int,
        phase_native: bool,
    ) -> bool {
        let e = d.n_embd as int;
        let rank = d.lm_rank as int;
        &&& self.ln_f_w@.len() == e
        &&& self.ln_f_b@.len() == e
        &&& if d.wave_decode || d.lm_rank > 0 || d.tied || phase_native {
            self.lm_head@.len() == 0
        } else {
            table_shaped(self.lm_head@, vocab_size, e)
        }
        &&& if d.lm_rank > 0 {
            &&& table_shaped(self.lm_down@, rank, e)
            &&& table_shaped(self.lm_up@, vocab_size, rank)
        } else {
            &&& self.lm_down@.len() == 0
            &&& self.lm_up@.len() == 0
        }
        &&& self.layer_scale@.len() == (if d.use_layer_scale {
            n
        } else {
            0
        })
    }

    /// The gradients of block `b` in the order of its parameters.
    pub open spec fn block_flat(&self, b: int) -> Seq<T> {
        self.block_ln_w@[b]@ + self.block_ln_b@[b]@ + self.block_ln_ffn_w@[b]@
            + self.block_ln_ffn_b@[b]@ + rows_flat(self.block_ffn_mae_in_sq_w@[b]@)
            + self.block_ffn_mae_in_sq_b@[b]@ + rows_flat(self.block_ffn_mae_in_pr_w@[b]@)
            + self.block_ffn_mae_in_pr_b@[b]@ + rows_flat(self.block_ffn_mae_out_sq_w@[b]@)
            + self.block_ffn_mae_out_sq_b@[b]@ + rows_flat(self.block_ffn_mae_out_pr_w@[b]@)
            + self.block_ffn_mae_out_pr_b@[b]@ + rows_flat(self.block_ffn_out_proj_w@[b]@)
            + self.block_ffn_out_proj_b@[b]@ + self.block_ode_flat(b)
    }

    /// The ODE gradients of block `b`, present where there is a damping gradient.
    pub open spec fn block_ode_flat(&self, b: int) -> Seq<T> {
        if self.block_ffn_kerr_gamma_raw@[b]@.len() > 0 {
            self.block_ffn_kerr_gamma_raw@[b]@ + seq![
                self.block_ffn_kerr_alpha@[b],
                self.block_ffn_kerr_beta@[b],
            ] + self.block_ffn_phase_correction@[b]@
        } else {
            Seq::empty()
        }
    }

    /// The gradients of the first `n` blocks.
    pub open spec fn blocks_flat(&self, n: int) -> Seq<T>
        decreases n,
    {
        if n <= 0 {
            Seq::empty()
        } else {
            self.blocks_flat(n - 1) + self.block_flat(n - 1)
        }
    }

    /// The gradients of the decoder: the output corrector if there is one, then
    /// the wave decoder, the low-rank factors, the full head or the temperature.
    pub open spec fn decoder_flat(&self, tied: bool) -> Seq<T> {
        self.d_output_corrector@ + (if let Some(wg) = self.wd_grads {
            wg.flat()
        } else if self.lm_down@.len() > 0 {
            rows_flat(self.lm_down@) + rows_flat(self.lm_up@)
        } else if !tied {
            rows_flat(self.lm_head@)
        } else {
            seq![self.tied_temperature]
        })
    }

    /// All gradients in flat order.
    pub open spec fn flat(&self, tied: bool) -> Seq<T> {
        self.blocks_flat(self.block_ln_w@.len() as int) + self.layer_scale@ + self.ln_f_w@
            + self.ln_f_b@ + self.decoder_flat(tied)
    }

    /// Every per-block accumulator covers the blocks that `block_ln_w` covers.
    pub open spec fn aligned(&self) -> bool {
        let n = self.block_ln_w@.len();
        &&& self.block_ln_b@.len() == n
        &&& self.block_ln_ffn_w@.len() == n
        &&& self.block_ln_ffn_b@.len() == n
        &&& self.block_ffn_kerr_gamma_raw@.len() == n
        &&& self.block_ffn_kerr_alpha@.len() == n
        &&& self.block_ffn_kerr_beta@.len() == n
        &&& self.block_ffn_phase_correction@.len() == n
        &&& self.block_ffn_mae_in_sq_w@.len() == n
        &&& self.block_ffn_mae_in_sq_b@.len() == n
        &&& self.block_ffn_mae_in_pr_w@.len() == n
        &&& self.block_ffn_mae_in_pr_b@.len() == n
        &&& self.block_ffn_mae_out_sq_w@.len() == n
        &&& self.block_ffn_mae_out_sq_b@.len() == n
        &&& self.block_ffn_mae_out_pr_w@.len() == n
        &&& self.block_ffn_mae_out_pr_b@.len() == n
        &&& self.block_ffn_out_proj_w@.len() == n
        &&& self.block_ffn_out_proj_b@.len() == n
    }
}

/// `n` matrices filled with `zero`.
fn filled_stack<T: Copy>(zero: T, n: usize, rows: usize, width: usize) -> (out: Vec<Vec<Vec<T>>>)
    ensures
        stack_shaped(out@, n as int, rows as int, width as int),
        stack_filled(out@, zero),
{
    let mut out: Vec<Vec<Vec<T>>> = Vec::new();
    let mut b: usize = 0;
    while b < n
        invariant
            b <= n,
            stack_shaped(out@, b as int, rows as int, width as int),
            stack_filled(out@, zero),
        decreases n - b,
    {
        out.push(filled_rows(zero, rows, width));
        b += 1;
    }
    out
}

/// Empty accumulators for a model of `n_blocks` blocks.
pub fn zero_gradients<T: Copy>(
    zero: T,
    n_blocks: usize,
    d: Dims,
    vocab_size: usize,
    phase_native: bool,
) -> (grads: Gradients<T>)
    ensures
        grads.blocks_shaped(n_blocks as int, d),
        grads.rest_shaped(n_blocks as int, d, vocab_size as int, phase_native),
        grads.all_zero(zero),
{
    let e: usize = d.n_embd;
    let m: usize = d.maestro_dim;
    let ode: usize = if d.learnable_ode {
        d.n_bands
    } else {
        0
    };
    let full: bool = !(d.wave_decode || d.lm_rank > 0 || d.tied || phase_native);
    Gradients {
        block_ln_w: filled_rows(zero, n_blocks, e),
        block_ln_b: filled_rows(zero, n_blocks, e),
        block_ln_ffn_w: filled_rows(zero, n_blocks, e),
        block_ln_ffn_b: filled_rows(zero, n_blocks, e),
        block_ffn_kerr_gamma_raw: filled_rows(zero, n_blocks, ode),
        block_ffn_kerr_omega: filled_rows(zero, n_blocks, d.n_bands),
        block_ffn_kerr_alpha: filled(zero, n_blocks),
        block_ffn_kerr_beta: filled(zero, n_blocks),
        block_ffn_phase_correction: filled_rows(zero, n_blocks, ode),
        block_ffn_mae_in_sq_w: filled_stack(zero, n_blocks, m, e),
        block_ffn_mae_in_sq_b: filled_rows(zero, n_blocks, m),
        block_ffn_mae_in_pr_w: filled_stack(zero, n_blocks, e, m),
        block_ffn_mae_in_pr_b: filled_rows(zero, n_blocks, e),
        block_ffn_mae_out_sq_w: filled_stack(zero, n_blocks, m, e),
        block_ffn_mae_out_sq_b: filled_rows(zero, n_blocks, m),
        block_ffn_mae_out_pr_w: filled_stack(zero, n_blocks, e, m),
        block_ffn_mae_out_pr_b: filled_rows(zero, n_blocks, e),
        block_ffn_out_proj_w: filled_stack(zero, n_blocks, e, e),
        block_ffn_out_proj_b: filled_rows(zero, n_blocks, e),
        ln_f_w: filled(zero, e),
        ln_f_b: filled(zero, e),
        lm_head: if full {
            filled_rows(zero, vocab_size, e)
        } else {
            Vec::new()
        },
        lm_down: if d.lm_rank > 0 {
            filled_rows(zero, d.lm_rank, e)
        } else {
            Vec::new()
        },
        lm_up: if d.lm_rank > 0 {
            filled_rows(zero, vocab_size, d.lm_rank)
        } else {
            Vec::new()
        },
        tied_temperature: zero,
        layer_scale: if d.use_layer_scale {
            filled(zero, n_blocks)
        } else {
            Vec::new()
        },
        d_output_corrector: Vec::new(),
        wd_grads: None,
    }
}

/// Appends the gradients of block `b`.
fn flatten_block<T: Copy>(grads: &Gradients<T>, b: usize, out: &mut Vec<T>)
    requires
        grads.aligned(),
        b < grads.block_ln_w@.len(),
    ensures
        final(out)@ == old(out)@ + grads.block_flat(b as int),
{
    extend_from(out, &grads.block_ln_w[b]);
    extend_from(out, &grads.block_ln_b[b]);
    extend_from(out, &grads.block_ln_ffn_w[b]);
    extend_from(out, &grads.block_ln_ffn_b[b]);
    extend_rows(out, &grads.block_ffn_mae_in_sq_w[b]);
    extend_from(out, &grads.block_ffn_mae_in_sq_b[b]);
    extend_rows(out, &grads.block_ffn_mae_in_pr_w[b]);
    extend_from(out, &grads.block_ffn_mae_in_pr_b[b]);
    extend_rows(out, &grads.block_ffn_mae_out_sq_w[b]);
    extend_from(out, &grads.block_ffn_mae_out_sq_b[b]);
    extend_rows(out, &grads.block_ffn_mae_out_pr_w[b]);
    extend_from(out, &grads.block_ffn_mae_out_pr_b[b]);
    extend_rows(out, &grads.block_ffn_out_proj_w[b]);
    extend_from(out, &grads.block_ffn_out_proj_b[b]);
    let ghost before = out@;
    if grads.block_ffn_kerr_gamma_raw[b].len() > 0 {
        extend_from(out, &grads.block_ffn_kerr_gamma_raw[b]);
        out.push(grads.block_ffn_kerr_alpha[b]);
        out.push(grads.block_ffn_kerr_beta[b]);
        extend_from(out, &grads.block_ffn_phase_correction[b]);
    }
    assert(out@ =~= before + grads.block_ode_flat(b as int));
    assert(out@ =~= old(out)@ + grads.block_flat(b as int));
}

/// All gradients in flat order, with an untied head.
pub fn flatten_grads<T: Copy>(grads: &Gradients<T>) -> (out: Vec<T>)
    requires
        grads.aligned(),
    ensures
        out@ == grads.flat(false),
{
    flatten_grads_ex(grads, false)
}

/// All gradients in flat order.
pub fn flatten_grads_ex<T: Copy>(grads: &Gradients<T>, tied: bool) -> (out: Vec<T>)
    requires
        grads.aligned(),
    ensures
        out@ == grads.flat(tied),
{
    let n: usize = grads.block_ln_w.len();
    let mut out: Vec<T> = Vec::new();
    let mut b: usize = 0;
    while b < n
        invariant
            grads.aligned(),
            n == grads.block_ln_w@.len(),
            b <= n,
            out@ == grads.blocks_flat(b as int),
        decreases n - b,
    {
        flatten_block(grads, b, &mut out);
        b += 1;
    }
    extend_from(&mut out, &grads.layer_scale);
    extend_from(&mut out, &grads.ln_f_w);
    extend_from(&mut out, &grads.ln_f_b);
    let ghost before = out@;
    extend_from(&mut out, &grads.d_output_corrector);
    if let Some(wg) = &grads.wd_grads {
        let g: Vec<T> = wave_decode::flatten_grads(wg);
        extend_from(&mut out, &g);
    } else if grads.lm_down.len() > 0 {
        extend_rows(&mut out, &grads.lm_down);
        extend_rows(&mut out, &grads.lm_up);
    } else if !tied {
        extend_rows(&mut out, &grads.lm_head);
    } else {
        out.push(grads.tied_temperature);
    }
    assert(out@ =~= before + grads.decoder_flat(tied));
    out
}

/// The gradients were accumulated for this model: the shapes are those of the
/// model's parameters, the projections are dense, and the decoder gradients are
/// those of the decoder in use. A phase-native model has neither low-rank
/// factors nor a tied head.
pub open spec fn grads_match<T>(
    model: WavePacketModel<T>,
    grads: Gradients<T>,
    d: Dims,
    tied: bool,
) -> bool {
    &&& grads.blocks_shaped(model.blocks@.len() as int, d)
    &&& grads.rest_shaped(
        model.blocks@.len() as int,
        d,
        model.vocab_size as int,
        model.phase_native,
    )
    &&& d.n_embd == model.n_embd()
    &&& d.maestro_dim == model.maestro_dim()
    &&& d.learnable_ode == model.learnable_ode
    &&& d.use_layer_scale == model.use_layer_scale
    &&& d.lm_rank == model.lm_rank
    &&& d.tied == tied
    &&& d.n_bands > 0
    &&& model.layer_scale@.len() == model.blocks@.len()
    &&& forall|b: int|
        0 <= b < model.blocks@.len() ==> dense_block(#[trigger] model.blocks@[b].ffn.out_proj, d)
            && model.blocks@[b].ffn.kerr.gamma_raw@.len() == d.n_bands
            && model.blocks@[b].ffn.kerr.phase_correction@.len() == d.n_bands
    &&& if model.phase_native {
        &&& grads.wd_grads is None
        &&& d.lm_rank == 0
        &&& !tied
        &&& grads.d_output_corrector@.len() == model.output_corrector@.len()
    } else {
        &&& grads.d_output_corrector@.len() == 0
        &&& d.wave_decode <==> model.wd_state is Some
        &&& match (grads.wd_grads, model.wd_state) {
            (Some(wg), Some(wds)) => wg.matches(&wds),
            (None, None) => true,
            _ => false,
        }
    }
}

/// A dense square projection of the model's width.
pub open spec fn dense_block<T>(proj: OutProjWeights<T>, d: Dims) -> bool {
    match proj {
        OutProjWeights::Dense(lw) => {
            &&& lw.w@.len() == d.n_embd
            &&& lw.w@[0]@.len() == d.n_embd
            &&& lw.b@.len() == d.n_embd
        },
        OutProjWeights::BlockDiagonal(_) => false,
    }
}

/// The gradients of a block are as many as its parameters.
proof fn lemma_block_len<T>(
    model: WavePacketModel<T>,
    grads: Gradients<T>,
    d: Dims,
    tied: bool,
    b: int,
)
    requires
        model.wf(tied),
        grads_match(model, grads, d, tied),
        0 <= b < model.blocks@.len(),
    ensures
        grads.block_flat(b).len() == model.blocks@[b].flat(model.learnable_ode).len(),
{
    let block = model.blocks@[b];
    let e = d.n_embd as int;
    let m = d.maestro_dim as int;
    block.lemma_flat_len(e, m, model.learnable_ode);
    assert(dense_block(block.ffn.out_proj, d));
    lemma_rows_flat_len(grads.block_ffn_mae_in_sq_w@[b]@, e);
    lemma_rows_flat_len(grads.block_ffn_mae_in_pr_w@[b]@, m);
    lemma_rows_flat_len(grads.block_ffn_mae_out_sq_w@[b]@, e);
    lemma_rows_flat_len(grads.block_ffn_mae_out_pr_w@[b]@, m);
    lemma_rows_flat_len(grads.block_ffn_out_proj_w@[b]@, e);
    assert(grads.block_ln_w@[b]@.len() == e);
    assert(grads.block_ln_b@[b]@.len() == e);
    assert(grads.block_ln_ffn_w@[b]@.len() == e);
    assert(grads.block_ln_ffn_b@[b]@.len() == e);
    assert(grads.block_ffn_mae_in_sq_b@[b]@.len() == m);
    assert(grads.block_ffn_mae_in_pr_b@[b]@.len() == e);
    assert(grads.block_ffn_mae_out_sq_b@[b]@.len() == m);
    assert(grads.block_ffn_mae_out_pr_b@[b]@.len() == e);
    assert(grads.block_ffn_out_proj_b@[b]@.len() == e);
    assert(grads.block_ode_flat(b).len() == block.ode_len(model.learnable_ode)) by {
        assert(grads.block_ffn_kerr_gamma_raw@[b]@.len() == (if d.learnable_ode {
            d.n_bands as int
        } else {
            0
        }));
        assert(grads.block_ffn_phase_correction@[b]@.len() == (if d.learnable_ode {
            d.n_bands as int
        } else {
            0
        }));
    }
}

proof fn lemma_blocks_len<T>(
    model: WavePacketModel<T>,
    grads: Gradients<T>,
    d: Dims,
    tied: bool,
    n: int,
)
    requires
        model.wf(tied),
        grads_match(model, grads, d, tied),
        0 <= n <= model.blocks@.len(),
    ensures
        grads.blocks_flat(n).len() == blocks_flat(
            model.blocks@.subrange(0, n),
            model.learnable_ode,
        ).len(),
    decreases n,
{
    if n > 0 {
        lemma_blocks_len(model, grads, d, tied, n - 1);
        lemma_block_len(model, grads, d, tied, n - 1);
        lemma_blocks_flat_step(model.blocks@, model.learnable_ode, n - 1);
    } else {
        assert(model.blocks@.subrange(0, 0).len() == 0);
    }
}

/// There is one gradient per trained parameter: gradients accumulated for a
/// model flatten to as many entries as the model's parameters.
pub proof fn law_grads_align_with_params<T>(
    model: WavePacketModel<T>,
    grads: Gradients<T>,
    d: Dims,
    tied: bool,
)
    requires
        model.wf(tied),
        grads_match(model, grads, d, tied),
    ensures
        grads.flat(tied).len() == model.flat(tied).len(),
{
    let n = model.blocks@.len() as int;
    lemma_blocks_len(model, grads, d, tied, n);
    assert(model.blocks@.subrange(0, n) =~= model.blocks@);
    model.lemma_decoder_len(tied);
    if let Some(wg) = grads.wd_grads {
        if let Some(wds) = model.wd_state {
            if !model.phase_native {
                wave_decode::law_grads_align_with_params(wds, wg);
                wds.lemma_flat_len();
            }
        }
    } else {
        if d.lm_rank > 0 {
            lemma_rows_flat_len(grads.lm_down@, d.n_embd as int);
            lemma_rows_flat_len(grads.lm_up@, d.lm_rank as int);
        } else if grads.lm_head@.len() > 0 {
            lemma_rows_flat_len(grads.lm_head@, d.n_embd as int);
        } else {
            assert(rows_flat(grads.lm_head@).len() == 0);
            assert(0 * d.n_embd == 0) by (nonlinear_arith);
        }
    }
}

} // verus!
