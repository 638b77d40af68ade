//! The reference model: weights, their initial values and their upload order.
//!
//! Block 0 mixes each band on its own; every later block runs the ODE between or
//! before regulators. Random values are drawn elsewhere and handed in; which draw
//! goes where is decided here.

use vstd::prelude::*;
use crate::config::ModelConfig;
use crate::seqs::{extend_from, extend_rows, filled, rows_flat, rows_width, take_rows};
use crate::seqs::lemma_rows_flat_len;
use crate::weights::{
    KerrDualMaestroWeights, KerrWeights, LayerNormWeights, LinearWeights, MaestroWeights,
    OutProjWeights,
};

verus! {

/// Causal self-attention: joint query, key and value projection, and the projection
/// back.
pub struct AttentionWeights<T> {
    pub c_attn: LinearWeights<T>,
    pub c_proj: LinearWeights<T>,
    pub n_head: usize,
}

/// A two by two map per band, and the output projection.
pub struct PerBandLinearWeights<T> {
    pub band_w: Vec<[[T; 2]; 2]>,
    pub band_b: Vec<[T; 2]>,
    pub out_proj: LinearWeights<T>,
}

/// The ODE with one regulator added to it.
pub struct KerrMaestroAddWeights<T> {
    pub kerr: KerrWeights<T>,
    pub maestro: MaestroWeights<T>,
    pub out_proj: LinearWeights<T>,
}

/// The feed-forward part of a block.
pub enum FfnWeights<T> {
    PerBand(PerBandLinearWeights<T>),
    KerrMaestro(KerrMaestroAddWeights<T>),
    KerrDualMaestro(KerrDualMaestroWeights<T>),
}

/// One block.
pub struct BlockWeights<T> {
    pub ln_1: LayerNormWeights<T>,
    pub attn: AttentionWeights<T>,
    pub ln_2: LayerNormWeights<T>,
    pub ffn: FfnWeights<T>,
}

/// The whole model.
pub struct ModelWeights<T> {
    pub config: ModelConfig,
    pub vocab_size: usize,
    pub wte_phase: Vec<Vec<T>>,
    pub wpe: Vec<Vec<T>>,
    pub blocks: Vec<BlockWeights<T>>,
    pub ln_f: LayerNormWeights<T>,
    pub lm_head: Vec<Vec<T>>,
}

/// Values that initial weights have besides random ones.
pub struct InitValues<T> {
    pub one: T,
    pub zero: T,
    /// Damping of every band, before the softplus.
    pub gamma_raw: T,
    /// Natural frequency of each band.
    pub omega: Vec<T>,
    pub alpha: T,
    pub beta: T,
    pub rk4_weights: [T; 4],
}

/// The entries of the two by two maps of the first `n` bands.
pub open spec fn band_maps_flat<T>(maps: Seq<[[T; 2]; 2]>) -> Seq<T>
    decreases maps.len(),
{
    if maps.len() == 0 {
        Seq::empty()
    } else {
        let m = maps.last();
        band_maps_flat(maps.drop_last()) + seq![m[0][0], m[0][1], m[1][0], m[1][1]]
    }
}

/// The entries of the shifts of all bands.
pub open spec fn band_shifts_flat<T>(shifts: Seq<[T; 2]>) -> Seq<T>
    decreases shifts.len(),
{
    if shifts.len() == 0 {
        Seq::empty()
    } else {
        let b = shifts.last();
        band_shifts_flat(shifts.drop_last()) + seq![b[0], b[1]]
    }
}

/// A sequence of `n` copies.
pub open spec fn copies<T>(x: T, n: int) -> Seq<T> {
    Seq::new(n as nat, |i: int| x)
}

/// A normalisation that changes nothing.
pub open spec fn neutral_norm<T>(ln: LayerNormWeights<T>, v: InitValues<T>, n: int) -> bool {
    ln.weight@ == copies(v.one, n) && ln.bias@ == copies(v.zero, n)
}

/// A linear layer of the given shape without bias.
pub open spec fn fresh_linear<T>(
    lw: LinearWeights<T>,
    v: InitValues<T>,
    out_dim: int,
    in_dim: int,
) -> bool {
    &&& lw.w@.len() == out_dim
    &&& rows_width(lw.w@, in_dim)
    &&& lw.b@ == copies(v.zero, out_dim)
}

/// A fresh ODE layer.
pub open spec fn fresh_kerr<T>(
    k: KerrWeights<T>,
    v: InitValues<T>,
    n_bands: usize,
    steps: usize,
) -> bool {
    &&& k.gamma_raw@ == copies(v.gamma_raw, n_bands as int)
    &&& k.omega@ == v.omega@
    &&& k.alpha == v.alpha
    &&& k.beta == v.beta
    &&& k.rk4_n_steps == steps
    &&& k.phase_correction@ == copies(v.zero, n_bands as int)
    &&& k.rk4_weights == v.rk4_weights
    &&& k.coherent_matrix@.len() == 0
    &&& k.mix_strength == v.zero
    &&& k.chi == v.zero
}

/// A fresh regulator.
pub open spec fn fresh_maestro<T>(m: MaestroWeights<T>, v: InitValues<T>, e: int, md: int) -> bool {
    fresh_linear(m.squeeze, v, md, e) && fresh_linear(m.process_1, v, e, md)
}

/// The drawn entries of a regulator.
pub open spec fn maestro_drawn<T>(m: MaestroWeights<T>) -> Seq<T> {
    rows_flat(m.squeeze.w@) + rows_flat(m.process_1.w@)
}

/// Number of drawn entries of a regulator.
pub open spec fn maestro_draws(e: int, md: int) -> int {
    md * e + e * md
}

/// The feed-forward part that block `layer` has.
#[derive(Clone, Copy, Debug, PartialEq, Eq, Structural)]
pub enum FfnKind {
    PerBand,
    KerrMaestro,
    KerrDualMaestro,
}

/// The feed-forward part that a block has: the first mixes bands, later ones run the
/// ODE.
pub open spec fn kind_of(layer: int, dual_maestro: bool) -> FfnKind {
    if layer == 0 {
        FfnKind::PerBand
    } else if dual_maestro {
        FfnKind::KerrDualMaestro
    } else {
        FfnKind::KerrMaestro
    }
}

/// The kind of a feed-forward part.
pub open spec fn ffn_kind<T>(f: FfnWeights<T>) -> FfnKind {
    match f {
        FfnWeights::PerBand(_) => FfnKind::PerBand,
        FfnWeights::KerrMaestro(_) => FfnKind::KerrMaestro,
        FfnWeights::KerrDualMaestro(_) => FfnKind::KerrDualMaestro,
    }
}

/// Number of drawn entries of a feed-forward part.
pub open spec fn ffn_draws(kind: FfnKind, config: ModelConfig) -> int {
    let e = 2 * config.n_bands;
    let md = config.maestro_dim as int;
    match kind {
        FfnKind::PerBand => 4 * config.n_bands + e * e,
        FfnKind::KerrMaestro => maestro_draws(e, md) + e * e,
        FfnKind::KerrDualMaestro => maestro_draws(e, md) + maestro_draws(e, md) + e * e,
    }
}

/// Number of drawn entries of an attention part.
pub open spec fn attn_draws(e: int) -> int {
    (3 * e) * e + e * e
}

/// Number of drawn entries of a block.
pub open spec fn block_draws(kind: FfnKind, config: ModelConfig) -> int {
    attn_draws(2 * config.n_bands) + ffn_draws(kind, config)
}

/// Number of drawn entries of the first `n` blocks.
pub open spec fn blocks_draws(config: ModelConfig, dual_maestro: bool, n: int) -> int
    decreases n,
{
    if n <= 0 {
        0
    } else {
        blocks_draws(config, dual_maestro, n - 1) + block_draws(
            kind_of(n - 1, dual_maestro),
            config,
        )
    }
}

/// Number of random values that a fresh model takes.
pub open spec fn model_draws(config: ModelConfig, dual_maestro: bool, vocab_size: int) -> int {
    blocks_draws(config, dual_maestro, config.n_layers as int) + vocab_size * (2 * config.n_bands)
}

/// The drawn entries of a feed-forward part, in drawing order.
pub open spec fn ffn_drawn<T>(f: FfnWeights<T>) -> Seq<T> {
    match f {
        FfnWeights::PerBand(w) => band_maps_flat(w.band_w@) + rows_flat(w.out_proj.w@),
        FfnWeights::KerrMaestro(w) => maestro_drawn(w.maestro) + rows_flat(w.out_proj.w@),
        FfnWeights::KerrDualMaestro(w) => maestro_drawn(w.maestro_in) + maestro_drawn(
            w.maestro_out,
        ) + (match w.out_proj {
            OutProjWeights::Dense(lw) => rows_flat(lw.w@),
            OutProjWeights::BlockDiagonal(_) => Seq::empty(),
        }),
    }
}

/// The drawn entries of a block: attention before the feed-forward part.
pub open spec fn block_drawn<T>(b: BlockWeights<T>) -> Seq<T> {
    rows_flat(b.attn.c_attn.w@) + rows_flat(b.attn.c_proj.w@) + ffn_drawn(b.ffn)
}

/// The drawn entries of the first `n` blocks.
pub open spec fn blocks_drawn<T>(blocks: Seq<BlockWeights<T>>, n: int) -> Seq<T>
    decreases n,
{
    if n <= 0 {
        Seq::empty()
    } else {
        blocks_drawn(blocks, n - 1) + block_drawn(blocks[n - 1])
    }
}

/// A fresh feed-forward part.
pub open spec fn fresh_ffn<T>(
    f: FfnWeights<T>,
    v: InitValues<T>,
    config: ModelConfig,
    kind: FfnKind,
) -> bool {
    let e = 2 * config.n_bands;
    let md = config.maestro_dim as int;
    &&& ffn_kind(f) == kind
    &&& match f {
        FfnWeights::PerBand(w) => {
            &&& w.band_w@.len() == config.n_bands
            &&& w.band_b@.len() == config.n_bands
            &&& forall|k: int|
                0 <= k < config.n_bands ==> (#[trigger] w.band_b@[k])[0] == v.zero
                    && w.band_b@[k][1] == v.zero
            &&& fresh_linear(w.out_proj, v, e, e)
        },
        FfnWeights::KerrMaestro(w) => {
            &&& fresh_kerr(w.kerr, v, config.n_bands, config.rk4_n_steps)
            &&& fresh_maestro(w.maestro, v, e, md)
            &&& fresh_linear(w.out_proj, v, e, e)
        },
        FfnWeights::KerrDualMaestro(w) => {
            &&& fresh_kerr(w.kerr, v, config.n_bands, config.rk4_n_steps)
            &&& fresh_maestro(w.maestro_in, v, e, md)
            &&& fresh_maestro(w.maestro_out, v, e, md)
            &&& w.out_proj matches OutProjWeights::Dense(lw) && fresh_linear(lw, v, e, e)
        },
    }
}

/// A fresh block.
pub open spec fn fresh_block<T>(
    b: BlockWeights<T>,
    v: InitValues<T>,
    config: ModelConfig,
    kind: FfnKind,
) -> bool {
    let e = 2 * config.n_bands;
    &&& neutral_norm(b.ln_1, v, e)
    &&& fresh_linear(b.attn.c_attn, v, 3 * e, e)
    &&& fresh_linear(b.attn.c_proj, v, e, e)
    &&& b.attn.n_head == config.n_head
    &&& neutral_norm(b.ln_2, v, e)
    &&& fresh_ffn(b.ffn, v, config, kind)
}

/// The draws from `at` on are `part`.
pub open spec fn drawn_at<T>(draws: Seq<T>, at: int, part: Seq<T>) -> bool {
    &&& 0 <= at
    &&& at + part.len() <= draws.len()
    &&& draws.subrange(at, at + part.len()) == part
}

/// Draws that follow one another are one run.
pub proof fn lemma_drawn_join<T>(draws: Seq<T>, at: int, a: Seq<T>, b: Seq<T>)
    requires
        drawn_at(draws, at, a),
        drawn_at(draws, at + a.len(), b),
    ensures
        drawn_at(draws, at, a + b),
{
    assert(draws.subrange(at, at + (a + b).len()) =~= draws.subrange(at, at + a.len())
        + draws.subrange(at + a.len(), at + a.len() + b.len()));
}

/// A fresh normalisation.
pub fn init_norm<T: Copy>(v: &InitValues<T>, n: usize) -> (ln: LayerNormWeights<T>)
    ensures
        neutral_norm(ln, *v, n as int),
{
    let ln = LayerNormWeights { weight: filled(v.one, n), bias: filled(v.zero, n) };
    assert(ln.weight@ =~= copies(v.one, n as int));
    assert(ln.bias@ =~= copies(v.zero, n as int));
    ln
}

/// A linear layer out of the draws from `at` on.
pub fn init_linear<T: Copy>(
    draws: &[T],
    at: usize,
    out_dim: usize,
    in_dim: usize,
    v: &InitValues<T>,
) -> (lw: LinearWeights<T>)
    requires
        at + out_dim * in_dim <= draws@.len(),
    ensures
        fresh_linear(lw, *v, out_dim as int, in_dim as int),
        rows_flat(lw.w@).len() == out_dim * in_dim,
        drawn_at(draws@, at as int, rows_flat(lw.w@)),
{
    let w: Vec<Vec<T>> = take_rows(draws, at, out_dim, in_dim);
    let b: Vec<T> = filled(v.zero, out_dim);
    proof {
        lemma_rows_flat_len(w@, in_dim as int);
        assert(b@ =~= copies(v.zero, out_dim as int));
    }
    LinearWeights { w, b }
}

/// A fresh ODE layer.
pub fn init_kerr<T: Copy>(v: &InitValues<T>, n_bands: usize, steps: usize) -> (k: KerrWeights<T>)
    ensures
        fresh_kerr(k, *v, n_bands, steps),
{
    let mut omega: Vec<T> = Vec::new();
    extend_from(&mut omega, &v.omega);
    let k = KerrWeights {
        gamma_raw: filled(v.gamma_raw, n_bands),
        omega,
        alpha: v.alpha,
        beta: v.beta,
        rk4_n_steps: steps,
        phase_correction: filled(v.zero, n_bands),
        rk4_weights: v.rk4_weights,
        coherent_matrix: Vec::new(),
        mix_strength: v.zero,
        chi: v.zero,
    };
    assert(k.gamma_raw@ =~= copies(v.gamma_raw, n_bands as int));
    assert(k.phase_correction@ =~= copies(v.zero, n_bands as int));
    assert(k.omega@ =~= v.omega@);
    k
}

/// A regulator out of the draws from `at` on.
pub fn init_maestro<T: Copy>(
    draws: &[T],
    at: usize,
    n_embd: usize,
    maestro_dim: usize,
    v: &InitValues<T>,
) -> (m: MaestroWeights<T>)
    requires
        at + maestro_draws(n_embd as int, maestro_dim as int) <= draws@.len(),
    ensures
        fresh_maestro(m, *v, n_embd as int, maestro_dim as int),
        maestro_drawn(m).len() == maestro_draws(n_embd as int, maestro_dim as int),
        drawn_at(draws@, at as int, maestro_drawn(m)),
{
    let total: usize = draws.len();
    assert(0 <= maestro_dim * n_embd && 0 <= n_embd * maestro_dim) by (nonlinear_arith);
    let squeeze: LinearWeights<T> = init_linear(draws, at, maestro_dim, n_embd, v);
    let next: usize = at + maestro_dim * n_embd;
    let process_1: LinearWeights<T> = init_linear(draws, next, n_embd, maestro_dim, v);
    proof {
        lemma_drawn_join(draws@, at as int, rows_flat(squeeze.w@), rows_flat(process_1.w@));
    }
    MaestroWeights { squeeze, process_1 }
}

fn init_per_band<T: Copy>(
    draws: &[T],
    at: usize,
    n_bands: usize,
    v: &InitValues<T>,
) -> (w: PerBandLinearWeights<T>)
    requires
        n_bands * 2 <= usize::MAX,
        at + 4 * n_bands + (2 * n_bands) * (2 * n_bands) <= draws@.len(),
    ensures
        w.band_w@.len() == n_bands,
        w.band_b@.len() == n_bands,
        forall|k: int|
            0 <= k < n_bands ==> (#[trigger] w.band_b@[k])[0] == v.zero && w.band_b@[k][1]
                == v.zero,
        fresh_linear(w.out_proj, *v, 2 * n_bands, 2 * n_bands),
        (band_maps_flat(w.band_w@) + rows_flat(w.out_proj.w@)).len() == 4 * n_bands + (2 * n_bands)
            * (2 * n_bands),
        drawn_at(draws@, at as int, band_maps_flat(w.band_w@) + rows_flat(w.out_proj.w@)),
{
    let total: usize = draws.len();
    let n_embd: usize = 2 * n_bands;
    assert(0 <= (2 * n_bands) * (2 * n_bands)) by (nonlinear_arith);
    let mut band_w: Vec<[[T; 2]; 2]> = Vec::new();
    let mut band_b: Vec<[T; 2]> = Vec::new();
    let mut k: usize = 0;
    assert(draws@.subrange(at as int, at + 0) =~= Seq::<T>::empty());
    while k < n_bands
        invariant
            total == draws@.len(),
            k <= n_bands,
            at + 4 * n_bands <= total,
            band_w@.len() == k,
            band_b@.len() == k,
            forall|i: int|
                0 <= i < k ==> (#[trigger] band_b@[i])[0] == v.zero && band_b@[i][1] == v.zero,
            band_maps_flat(band_w@) == draws@.subrange(at as int, at + 4 * k),
        decreases n_bands - k,
    {
        let o: usize = at + 4 * k;
        let m: [[T; 2]; 2] = [[draws[o], draws[o + 1]], [draws[o + 2], draws[o + 3]]];
        let ghost before = band_w@;
        band_w.push(m);
        band_b.push([v.zero, v.zero]);
        assert(band_w@.drop_last() =~= before);
        assert(draws@.subrange(at as int, at + 4 * (k + 1)) =~= draws@.subrange(
            at as int,
            at + 4 * k,
        ) + seq![m[0][0], m[0][1], m[1][0], m[1][1]]);
        k += 1;
    }
    let next: usize = at + 4 * n_bands;
    let out_proj: LinearWeights<T> = init_linear(draws, next, n_embd, n_embd, v);
    proof {
        assert(band_maps_flat(band_w@).len() == 4 * n_bands);
        lemma_drawn_join(draws@, at as int, band_maps_flat(band_w@), rows_flat(out_proj.w@));
    }
    PerBandLinearWeights { band_w, band_b, out_proj }
}

fn init_ffn<T: Copy>(
    draws: &[T],
    at: usize,
    config: &ModelConfig,
    kind: FfnKind,
    v: &InitValues<T>,
) -> (f: FfnWeights<T>)
    requires
        config.n_bands * 2 <= usize::MAX,
        at + ffn_draws(kind, *config) <= draws@.len(),
    ensures
        fresh_ffn(f, *v, *config, kind),
        ffn_drawn(f).len() == ffn_draws(kind, *config),
        drawn_at(draws@, at as int, ffn_drawn(f)),
{
    let total: usize = draws.len();
    let e: usize = 2 * config.n_bands;
    let md: usize = config.maestro_dim;
    assert(0 <= md * e && 0 <= e * md && 0 <= e * e) by (nonlinear_arith);
    match kind {
        FfnKind::PerBand => FfnWeights::PerBand(init_per_band(draws, at, config.n_bands, v)),
        FfnKind::KerrMaestro => {
            let maestro: MaestroWeights<T> = init_maestro(draws, at, e, md, v);
            let next: usize = at + md * e + e * md;
            let out_proj: LinearWeights<T> = init_linear(draws, next, e, e, v);
            proof {
                lemma_drawn_join(
                    draws@,
                    at as int,
                    maestro_drawn(maestro),
                    rows_flat(out_proj.w@),
                );
            }
            FfnWeights::KerrMaestro(
                KerrMaestroAddWeights {
                    kerr: init_kerr(v, config.n_bands, config.rk4_n_steps),
                    maestro,
                    out_proj,
                },
            )
        },
        FfnKind::KerrDualMaestro => {
            let maestro_in: MaestroWeights<T> = init_maestro(draws, at, e, md, v);
            let a2: usize = at + md * e + e * md;
            let maestro_out: MaestroWeights<T> = init_maestro(draws, a2, e, md, v);
            let a3: usize = a2 + md * e + e * md;
            let out_proj: LinearWeights<T> = init_linear(draws, a3, e, e, v);
            proof {
                lemma_drawn_join(
                    draws@,
                    at as int,
                    maestro_drawn(maestro_in),
                    maestro_drawn(maestro_out),
                );
                lemma_drawn_join(
                    draws@,
                    at as int,
                    maestro_drawn(maestro_in) + maestro_drawn(maestro_out),
                    rows_flat(out_proj.w@),
                );
            }
            FfnWeights::KerrDualMaestro(
                KerrDualMaestroWeights {
                    kerr: init_kerr(v, config.n_bands, config.rk4_n_steps),
                    maestro_in,
                    maestro_out,
                    out_proj: OutProjWeights::Dense(out_proj),
                },
            )
        },
    }
}

fn init_block<T: Copy>(
    draws: &[T],
    at: usize,
    config: &ModelConfig,
    kind: FfnKind,
    v: &InitValues<T>,
) -> (result: (BlockWeights<T>, usize))
    requires
        config.n_bands * 2 <= usize::MAX,
        config.n_bands * 2 * 3 <= usize::MAX,
        at + block_draws(kind, *config) <= draws@.len(),
    ensures
        fresh_block(result.0, *v, *config, kind),
        result.1 == at + block_draws(kind, *config),
        block_drawn(result.0).len() == block_draws(kind, *config),
        drawn_at(draws@, at as int, block_drawn(result.0)),
{
    let total: usize = draws.len();
    let e: usize = 2 * config.n_bands;
    let md: usize = config.maestro_dim;
    assert(0 <= (3 * e) * e && 0 <= e * e && 0 <= md * e && 0 <= e * md) by (nonlinear_arith);
    let c_attn: LinearWeights<T> = init_linear(draws, at, 3 * e, e, v);
    let a2: usize = at + (3 * e) * e;
    let c_proj: LinearWeights<T> = init_linear(draws, a2, e, e, v);
    let a3: usize = a2 + e * e;
    let ffn: FfnWeights<T> = init_ffn(draws, a3, config, kind, v);
    proof {
        lemma_drawn_join(draws@, at as int, rows_flat(c_attn.w@), rows_flat(c_proj.w@));
        lemma_drawn_join(
            draws@,
            at as int,
            rows_flat(c_attn.w@) + rows_flat(c_proj.w@),
            ffn_drawn(ffn),
        );
    }
    let used: usize = match kind {
        FfnKind::PerBand => 4 * config.n_bands + e * e,
        FfnKind::KerrMaestro => md * e + e * md + e * e,
        FfnKind::KerrDualMaestro => md * e + e * md + (md * e + e * md) + e * e,
    };
    let block = BlockWeights {
        ln_1: init_norm(v, e),
        attn: AttentionWeights { c_attn, c_proj, n_head: config.n_head },
        ln_2: init_norm(v, e),
        ffn,
    };
    (block, a3 + used)
}

proof fn lemma_blocks_draws_grow(config: ModelConfig, dual_maestro: bool, n: int, more: int)
    requires
        0 <= n <= more,
    ensures
        0 <= blocks_draws(config, dual_maestro, n) <= blocks_draws(config, dual_maestro, more),
    decreases more,
{
    let e = 2 * config.n_bands;
    let md = config.maestro_dim as int;
    assert(0 <= (3 * e) * e && 0 <= e * e && 0 <= md * e && 0 <= e * md) by (nonlinear_arith)
        requires
            e >= 0,
            md >= 0,
    ;
    if more > 0 {
        if n < more {
            lemma_blocks_draws_grow(config, dual_maestro, n, more - 1);
        } else {
            lemma_blocks_draws_grow(config, dual_maestro, n - 1, more - 1);
        }
    }
}

proof fn lemma_blocks_drawn_prefix<T>(a: Seq<BlockWeights<T>>, b: Seq<BlockWeights<T>>, n: int)
    requires
        n <= a.len(),
        n <= b.len(),
        forall|i: int| 0 <= i < n ==> a[i] == b[i],
    ensures
        blocks_drawn(a, n) == blocks_drawn(b, n),
    decreases n,
{
    if n > 0 {
        lemma_blocks_drawn_prefix(a, b, n - 1);
    }
}

/// A fresh model out of random values: the first block mixes bands, the later ones
/// run the ODE, with two regulators each where `dual_maestro` says so. The values are
/// used up in order: attention before the feed-forward part, block by block, the head
/// last.
pub fn init_model_ext<T: Copy>(
    vocab_size: usize,
    config: ModelConfig,
    dual_maestro: bool,
    draws: &[T],
    v: &InitValues<T>,
    wte_phase: Vec<Vec<T>>,
    wpe: Vec<Vec<T>>,
) -> (model: ModelWeights<T>)
    requires
        config.valid(),
        config.n_layers > 0,
        config.n_bands * 2 * 3 <= usize::MAX,
        draws@.len() == model_draws(config, dual_maestro, vocab_size as int),
    ensures
        model.config == config,
        model.vocab_size == vocab_size,
        model.wte_phase == wte_phase,
        model.wpe == wpe,
        model.blocks@.len() == config.n_layers,
        forall|i: int|
            0 <= i < config.n_layers ==> fresh_block(
                #[trigger] model.blocks@[i],
                *v,
                config,
                kind_of(i, dual_maestro),
            ),
        neutral_norm(model.ln_f, *v, 2 * config.n_bands),
        model.lm_head@.len() == vocab_size,
        rows_width(model.lm_head@, 2 * config.n_bands),
        blocks_drawn(model.blocks@, config.n_layers as int) + rows_flat(model.lm_head@) == draws@,
{
    let total: usize = draws.len();
    let e: usize = 2 * config.n_bands;
    assert(0 <= vocab_size * e) by (nonlinear_arith);
    let mut blocks: Vec<BlockWeights<T>> = Vec::new();
    let mut at: usize = 0;
    let mut layer: usize = 0;
    assert(draws@.subrange(0, 0) =~= Seq::<T>::empty());
    while layer < config.n_layers
        invariant
            total == draws@.len(),
            e == 2 * config.n_bands,
            config.n_bands * 2 * 3 <= usize::MAX,
            0 <= vocab_size * e,
            total == model_draws(config, dual_maestro, vocab_size as int),
            layer <= config.n_layers,
            blocks@.len() == layer,
            at == blocks_draws(config, dual_maestro, layer as int),
            forall|i: int|
                0 <= i < layer ==> fresh_block(
                    #[trigger] blocks@[i],
                    *v,
                    config,
                    kind_of(i, dual_maestro),
                ),
            blocks_drawn(blocks@, layer as int) == draws@.subrange(0, at as int),
            0 <= at <= total,
        decreases config.n_layers - layer,
    {
        let kind: FfnKind = if layer == 0 {
            FfnKind::PerBand
        } else if dual_maestro {
            FfnKind::KerrDualMaestro
        } else {
            FfnKind::KerrMaestro
        };
        proof {
            lemma_blocks_draws_grow(config, dual_maestro, layer + 1, config.n_layers as int);
        }
        let (block, next): (BlockWeights<T>, usize) = init_block(draws, at, &config, kind, v);
        let ghost before = blocks@;
        blocks.push(block);
        proof {
            lemma_blocks_drawn_prefix(before, blocks@, layer as int);
            assert(blocks_drawn(blocks@, layer + 1) == blocks_drawn(blocks@, layer as int)
                + block_drawn(block));
            assert(draws@.subrange(0, next as int) =~= draws@.subrange(0, at as int)
                + draws@.subrange(at as int, next as int));
        }
        at = next;
        layer += 1;
    }
    let lm_head: Vec<Vec<T>> = take_rows(draws, at, vocab_size, e);
    assert(draws@ =~= draws@.subrange(0, at as int) + draws@.subrange(
        at as int,
        at + vocab_size * e,
    ));
    ModelWeights { config, vocab_size, wte_phase, wpe, blocks, ln_f: init_norm(v, e), lm_head }
}

/// A run of random values with a common bound: one over the root of `fan_in`.
#[derive(Clone, Copy, Debug, PartialEq, Eq, Structural)]
pub struct DrawRun {
    pub count: usize,
    pub fan_in: usize,
}

/// A run of random values.
pub open spec fn run(count: int, fan_in: int) -> DrawRun {
    DrawRun { count: count as usize, fan_in: fan_in as usize }
}

/// The runs of a feed-forward part.
pub open spec fn ffn_runs(kind: FfnKind, config: ModelConfig) -> Seq<DrawRun> {
    let e = 2 * config.n_bands;
    let md = config.maestro_dim as int;
    match kind {
        FfnKind::PerBand => seq![run(4 * config.n_bands, 2), run(e * e, e)],
        FfnKind::KerrMaestro => seq![run(md * e, e), run(e * md, md), run(e * e, e)],
        FfnKind::KerrDualMaestro => seq![
            run(md * e, e),
            run(e * md, md),
            run(md * e, e),
            run(e * md, md),
            run(e * e, e),
        ],
    }
}

/// The runs of a block.
pub open spec fn block_runs(kind: FfnKind, config: ModelConfig) -> Seq<DrawRun> {
    let e = 2 * config.n_bands;
    seq![run((3 * e) * e, e), run(e * e, e)] + ffn_runs(kind, config)
}

/// The runs of the first `n` blocks.
pub open spec fn blocks_runs(config: ModelConfig, dual_maestro: bool, n: int) -> Seq<DrawRun>
    decreases n,
{
    if n <= 0 {
        Seq::empty()
    } else {
        blocks_runs(config, dual_maestro, n - 1) + block_runs(kind_of(n - 1, dual_maestro), config)
    }
}

/// The runs of a model.
pub open spec fn model_runs(config: ModelConfig, dual_maestro: bool, vocab_size: int) -> Seq<
    DrawRun,
> {
    let e = 2 * config.n_bands;
    blocks_runs(config, dual_maestro, config.n_layers as int) + seq![run(vocab_size * e, e)]
}

/// Number of values of a list of runs.
pub open spec fn runs_total(runs: Seq<DrawRun>) -> int
    decreases runs.len(),
{
    if runs.len() == 0 {
        0
    } else {
        runs_total(runs.drop_last()) + runs.last().count
    }
}

/// The runs of random values that a fresh model takes, in order.
pub fn draw_runs(config: &ModelConfig, dual_maestro: bool, vocab_size: usize) -> (runs: Vec<DrawRun>)
    requires
        config.n_bands * 2 * 3 <= usize::MAX,
        model_draws(*config, dual_maestro, vocab_size as int) <= usize::MAX,
    ensures
        runs@ == model_runs(*config, dual_maestro, vocab_size as int),
{
    let e: usize = 2 * config.n_bands;
    let md: usize = config.maestro_dim;
    assert(0 <= (3 * e) * e && 0 <= e * e && 0 <= md * e && 0 <= e * md && 0 <= vocab_size * e)
        by (nonlinear_arith);
    let mut runs: Vec<DrawRun> = Vec::new();
    let mut layer: usize = 0;
    proof {
        lemma_blocks_draws_grow(*config, dual_maestro, 0, config.n_layers as int);
    }
    while layer < config.n_layers
        invariant
            e == 2 * config.n_bands,
            md == config.maestro_dim,
            config.n_bands * 2 * 3 <= usize::MAX,
            0 <= (3 * e) * e && 0 <= e * e && 0 <= md * e && 0 <= e * md,
            blocks_draws(*config, dual_maestro, config.n_layers as int) <= usize::MAX,
            layer <= config.n_layers,
            runs@ == blocks_runs(*config, dual_maestro, layer as int),
        decreases config.n_layers - layer,
    {
        proof {
            lemma_blocks_draws_grow(*config, dual_maestro, layer + 1, config.n_layers as int);
            lemma_blocks_draws_grow(*config, dual_maestro, 0, layer as int);
        }
        let ghost before = runs@;
        runs.push(DrawRun { count: (3 * e) * e, fan_in: e });
        runs.push(DrawRun { count: e * e, fan_in: e });
        if layer == 0 {
            runs.push(DrawRun { count: 4 * config.n_bands, fan_in: 2 });
        } else if dual_maestro {
            runs.push(DrawRun { count: md * e, fan_in: e });
            runs.push(DrawRun { count: e * md, fan_in: md });
            runs.push(DrawRun { count: md * e, fan_in: e });
            runs.push(DrawRun { count: e * md, fan_in: md });
        } else {
            runs.push(DrawRun { count: md * e, fan_in: e });
            runs.push(DrawRun { count: e * md, fan_in: md });
        }
        runs.push(DrawRun { count: e * e, fan_in: e });
        assert(runs@ =~= before + block_runs(kind_of(layer as int, dual_maestro), *config));
        layer += 1;
    }
    runs.push(DrawRun { count: vocab_size * e, fan_in: e });
    assert(runs@ =~= model_runs(*config, dual_maestro, vocab_size as int));
    runs
}

/// The values of two lists of runs add up.
pub proof fn lemma_runs_total_append(a: Seq<DrawRun>, b: Seq<DrawRun>)
    ensures
        runs_total(a + b) == runs_total(a) + runs_total(b),
    decreases b.len(),
{
    if b.len() == 0 {
        assert(a + b =~= a);
    } else {
        lemma_runs_total_append(a, b.drop_last());
        assert((a + b).drop_last() =~= a + b.drop_last());
    }
}

proof fn lemma_block_runs_total(kind: FfnKind, config: ModelConfig)
    requires
        block_draws(kind, config) <= usize::MAX,
    ensures
        runs_total(block_runs(kind, config)) == block_draws(kind, config),
{
    let e = 2 * config.n_bands;
    let md = config.maestro_dim as int;
    assert(0 <= (3 * e) * e && 0 <= e * e && 0 <= md * e && 0 <= e * md) by (nonlinear_arith)
        requires
            e >= 0,
            md >= 0,
    ;
    reveal_with_fuel(runs_total, 8);
    let runs = block_runs(kind, config);
    match kind {
        FfnKind::PerBand => {
            assert(runs.len() == 4);
            assert(runs.drop_last().drop_last().drop_last().drop_last() =~= Seq::empty());
        },
        FfnKind::KerrMaestro => {
            assert(runs.len() == 5);
            assert(runs.drop_last().drop_last().drop_last().drop_last().drop_last()
                =~= Seq::empty());
        },
        FfnKind::KerrDualMaestro => {
            assert(runs.len() == 7);
            assert(
                runs.drop_last().drop_last().drop_last().drop_last().drop_last().drop_last().drop_last()
                    =~= Seq::empty());
        },
    }
}

proof fn lemma_blocks_runs_total(config: ModelConfig, dual_maestro: bool, n: int)
    requires
        0 <= n,
        blocks_draws(config, dual_maestro, n) <= usize::MAX,
    ensures
        runs_total(blocks_runs(config, dual_maestro, n)) == blocks_draws(config, dual_maestro, n),
    decreases n,
{
    if n > 0 {
        lemma_blocks_draws_grow(config, dual_maestro, n - 1, n);
        lemma_blocks_runs_total(config, dual_maestro, n - 1);
        let kind = kind_of(n - 1, dual_maestro);
        lemma_blocks_draws_grow(config, dual_maestro, 0, n - 1);
        lemma_block_runs_total(kind, config);
        lemma_runs_total_append(
            blocks_runs(config, dual_maestro, n - 1),
            block_runs(kind, config),
        );
    }
}

/// The runs hold exactly as many values as a fresh model uses up.
pub proof fn law_runs_feed_model(config: ModelConfig, dual_maestro: bool, vocab_size: usize)
    requires
        model_draws(config, dual_maestro, vocab_size as int) <= usize::MAX,
    ensures
        runs_total(model_runs(config, dual_maestro, vocab_size as int)) == model_draws(
            config,
            dual_maestro,
            vocab_size as int,
        ),
{
    let e = 2 * config.n_bands;
    let n = config.n_layers as int;
    assert(0 <= vocab_size * e) by (nonlinear_arith)
        requires
            e >= 0,
    ;
    lemma_blocks_draws_grow(config, dual_maestro, 0, n);
    lemma_blocks_runs_total(config, dual_maestro, n);
    let head = seq![run(vocab_size * e, e)];
    lemma_runs_total_append(blocks_runs(config, dual_maestro, n), head);
    reveal_with_fuel(runs_total, 2);
    assert(head.drop_last() =~= Seq::empty());
}

/// Values of one device buffer. Damping is stored after the softplus.
pub struct Upload<T> {
    pub values: Vec<T>,
    pub softplus: bool,
}

/// What a list of uploads holds.
pub open spec fn upload_views<T>(list: Seq<Upload<T>>) -> Seq<(Seq<T>, bool)> {
    list.map_values(|u: Upload<T>| (u.values@, u.softplus))
}

/// The weights of a linear layer, then its bias.
pub open spec fn linear_uploads<T>(lw: LinearWeights<T>) -> Seq<(Seq<T>, bool)> {
    seq![(rows_flat(lw.w@), false), (lw.b@, false)]
}

/// Damping, frequency and coupling of an ODE layer.
pub open spec fn kerr_uploads<T>(k: KerrWeights<T>) -> Seq<(Seq<T>, bool)> {
    seq![(k.gamma_raw@, true), (k.omega@, false), (seq![k.alpha, k.beta], false)]
}

/// Both layers of a regulator.
pub open spec fn maestro_uploads<T>(m: MaestroWeights<T>) -> Seq<(Seq<T>, bool)> {
    linear_uploads(m.squeeze) + linear_uploads(m.process_1)
}

/// Weights and bias of an output projection.
pub open spec fn proj_uploads<T>(p: OutProjWeights<T>) -> Seq<(Seq<T>, bool)> {
    match p {
        OutProjWeights::Dense(lw) => linear_uploads(lw),
        OutProjWeights::BlockDiagonal(bd) => seq![
            (crate::weights::groups_weights(bd.groups@), false),
            (crate::weights::groups_biases(bd.groups@), false),
        ],
    }
}

/// The buffers of a feed-forward part.
pub open spec fn ffn_uploads<T>(f: FfnWeights<T>) -> Seq<(Seq<T>, bool)> {
    match f {
        FfnWeights::PerBand(w) => seq![
            (band_maps_flat(w.band_w@), false),
            (band_shifts_flat(w.band_b@), false),
        ] + linear_uploads(w.out_proj),
        FfnWeights::KerrMaestro(w) => kerr_uploads(w.kerr) + maestro_uploads(w.maestro)
            + linear_uploads(w.out_proj),
        FfnWeights::KerrDualMaestro(w) => kerr_uploads(w.kerr) + maestro_uploads(w.maestro_in)
            + maestro_uploads(w.maestro_out) + proj_uploads(w.out_proj),
    }
}

/// The buffers of a block: both normalisations, attention, then the feed-forward part.
pub open spec fn block_uploads_of<T>(b: BlockWeights<T>) -> Seq<(Seq<T>, bool)> {
    seq![(b.ln_1.weight@, false), (b.ln_1.bias@, false)] + linear_uploads(b.attn.c_attn)
        + linear_uploads(b.attn.c_proj) + seq![(b.ln_2.weight@, false), (b.ln_2.bias@, false)]
        + ffn_uploads(b.ffn)
}

/// The buffers after the blocks: the final normalisation and the head.
pub open spec fn tail_uploads_of<T>(m: ModelWeights<T>) -> Seq<(Seq<T>, bool)> {
    seq![(m.ln_f.weight@, false), (m.ln_f.bias@, false), (rows_flat(m.lm_head@), false)]
}

fn push_values<T: Copy>(out: &mut Vec<Upload<T>>, values: &[T], softplus: bool)
    ensures
        upload_views(final(out)@) == upload_views(old(out)@).push((values@, softplus)),
{
    let mut copy: Vec<T> = Vec::new();
    extend_from(&mut copy, values);
    assert(copy@ =~= values@);
    out.push(Upload { values: copy, softplus });
    assert(upload_views(out@) =~= upload_views(old(out)@).push((values@, softplus)));
}

fn push_rows<T: Copy>(out: &mut Vec<Upload<T>>, rows: &Vec<Vec<T>>)
    ensures
        upload_views(final(out)@) == upload_views(old(out)@).push((rows_flat(rows@), false)),
{
    let mut flat: Vec<T> = Vec::new();
    extend_rows(&mut flat, rows);
    assert(flat@ =~= rows_flat(rows@));
    out.push(Upload { values: flat, softplus: false });
    assert(upload_views(out@) =~= upload_views(old(out)@).push((rows_flat(rows@), false)));
}

fn push_linear<T: Copy>(out: &mut Vec<Upload<T>>, lw: &LinearWeights<T>)
    ensures
        upload_views(final(out)@) == upload_views(old(out)@) + linear_uploads(*lw),
{
    push_rows(out, &lw.w);
    push_values(out, &lw.b, false);
    assert(upload_views(out@) =~= upload_views(old(out)@) + linear_uploads(*lw));
}

fn push_kerr<T: Copy>(out: &mut Vec<Upload<T>>, k: &KerrWeights<T>)
    ensures
        upload_views(final(out)@) == upload_views(old(out)@) + kerr_uploads(*k),
{
    push_values(out, &k.gamma_raw, true);
    push_values(out, &k.omega, false);
    let pair: [T; 2] = [k.alpha, k.beta];
    push_values(out, &pair, false);
    assert(pair@ =~= seq![k.alpha, k.beta]);
    assert(upload_views(out@) =~= upload_views(old(out)@) + kerr_uploads(*k));
}

fn push_maestro<T: Copy>(out: &mut Vec<Upload<T>>, m: &MaestroWeights<T>)
    ensures
        upload_views(final(out)@) == upload_views(old(out)@) + maestro_uploads(*m),
{
    push_linear(out, &m.squeeze);
    push_linear(out, &m.process_1);
    assert(upload_views(out@) =~= upload_views(old(out)@) + maestro_uploads(*m));
}

fn push_bands<T: Copy>(out: &mut Vec<Upload<T>>, w: &PerBandLinearWeights<T>)
    ensures
        upload_views(final(out)@) == upload_views(old(out)@) + seq![
            (band_maps_flat(w.band_w@), false),
            (band_shifts_flat(w.band_b@), false),
        ],
{
    let n: usize = w.band_w.len();
    let mut maps: Vec<T> = Vec::new();
    let mut i: usize = 0;
    assert(w.band_w@.take(0) =~= Seq::<[[T; 2]; 2]>::empty());
    while i < n
        invariant
            n == w.band_w@.len(),
            i <= n,
            maps@ == band_maps_flat(w.band_w@.take(i as int)),
        decreases n - i,
    {
        let m: [[T; 2]; 2] = w.band_w[i];
        let ghost before = maps@;
        maps.push(m[0][0]);
        maps.push(m[0][1]);
        maps.push(m[1][0]);
        maps.push(m[1][1]);
        assert(w.band_w@.take(i + 1).drop_last() =~= w.band_w@.take(i as int));
        assert(maps@ =~= before + seq![m[0][0], m[0][1], m[1][0], m[1][1]]);
        i += 1;
    }
    assert(w.band_w@.take(n as int) =~= w.band_w@);
    let n_b: usize = w.band_b.len();
    let mut shifts: Vec<T> = Vec::new();
    let mut j: usize = 0;
    assert(w.band_b@.take(0) =~= Seq::<[T; 2]>::empty());
    while j < n_b
        invariant
            n_b == w.band_b@.len(),
            j <= n_b,
            shifts@ == band_shifts_flat(w.band_b@.take(j as int)),
        decreases n_b - j,
    {
        let b: [T; 2] = w.band_b[j];
        let ghost before = shifts@;
        shifts.push(b[0]);
        shifts.push(b[1]);
        assert(w.band_b@.take(j + 1).drop_last() =~= w.band_b@.take(j as int));
        assert(shifts@ =~= before + seq![b[0], b[1]]);
        j += 1;
    }
    assert(w.band_b@.take(n_b as int) =~= w.band_b@);
    out.push(Upload { values: maps, softplus: false });
    out.push(Upload { values: shifts, softplus: false });
    assert(upload_views(out@) =~= upload_views(old(out)@) + seq![
        (band_maps_flat(w.band_w@), false),
        (band_shifts_flat(w.band_b@), false),
    ]);
}

/// The device buffers of a block, in order. Uploading and updating walk the same list.
pub fn block_uploads<T: Copy>(b: &BlockWeights<T>) -> (out: Vec<Upload<T>>)
    ensures
        upload_views(out@) == block_uploads_of(*b),
{
    let mut out: Vec<Upload<T>> = Vec::new();
    assert(upload_views(out@) =~= Seq::<(Seq<T>, bool)>::empty());
    push_values(&mut out, &b.ln_1.weight, false);
    push_values(&mut out, &b.ln_1.bias, false);
    push_linear(&mut out, &b.attn.c_attn);
    push_linear(&mut out, &b.attn.c_proj);
    push_values(&mut out, &b.ln_2.weight, false);
    push_values(&mut out, &b.ln_2.bias, false);
    let ghost head = upload_views(out@);
    match &b.ffn {
        FfnWeights::PerBand(w) => {
            push_bands(&mut out, w);
            push_linear(&mut out, &w.out_proj);
        },
        FfnWeights::KerrMaestro(w) => {
            push_kerr(&mut out, &w.kerr);
            push_maestro(&mut out, &w.maestro);
            push_linear(&mut out, &w.out_proj);
        },
        FfnWeights::KerrDualMaestro(w) => {
            push_kerr(&mut out, &w.kerr);
            push_maestro(&mut out, &w.maestro_in);
            push_maestro(&mut out, &w.maestro_out);
            let ghost before = upload_views(out@);
            let weights: Vec<T> = w.out_proj.weights_flat();
            let bias: Vec<T> = w.out_proj.bias_flat();
            out.push(Upload { values: weights, softplus: false });
            out.push(Upload { values: bias, softplus: false });
            assert(upload_views(out@) =~= before + proj_uploads(w.out_proj));
        },
    }
    assert(upload_views(out@) =~= head + ffn_uploads(b.ffn));
    assert(upload_views(out@) =~= block_uploads_of(*b));
    out
}

/// The device buffers after the blocks.
pub fn tail_uploads<T: Copy>(m: &ModelWeights<T>) -> (out: Vec<Upload<T>>)
    ensures
        upload_views(out@) == tail_uploads_of(*m),
{
    let mut out: Vec<Upload<T>> = Vec::new();
    assert(upload_views(out@) =~= Seq::<(Seq<T>, bool)>::empty());
    push_values(&mut out, &m.ln_f.weight, false);
    push_values(&mut out, &m.ln_f.bias, false);
    push_rows(&mut out, &m.lm_head);
    assert(upload_views(out@) =~= tail_uploads_of(*m));
    out
}

/// Two feed-forward parts of one kind take the same number of buffers, so that an
/// update finds a buffer for everything it writes.
pub proof fn law_uploads_match_by_kind<T>(a: BlockWeights<T>, b: BlockWeights<T>)
    requires
        ffn_kind(a.ffn) == ffn_kind(b.ffn),
    ensures
        block_uploads_of(a).len() == block_uploads_of(b).len(),
        forall|i: int|
            0 <= i < block_uploads_of(a).len() ==> (#[trigger] block_uploads_of(a)[i]).1
                == block_uploads_of(b)[i].1,
{
}

} // verus!
