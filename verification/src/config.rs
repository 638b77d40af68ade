//! Architecture dimensions of the reference model.

use vstd::prelude::*;

verus! {

/// Architecture dimensions, stored with the weights so that every function can
/// derive its sizes from them.
#[derive(Clone, Copy, Debug)]
pub struct ModelConfig {
    pub n_bands: usize,
    pub n_head: usize,
    pub n_layers: usize,
    pub maestro_dim: usize,
    pub block_size: usize,
    pub rk4_n_steps: usize,
}

/// Number of frequency bands of the reference architecture.
pub const N_BANDS: usize = 64;

/// Embedding width of the reference architecture: two components per band.
pub const N_EMBD: usize = 128;

/// Attention heads of the reference architecture.
pub const N_HEAD: usize = 4;

/// Width of one attention head of the reference architecture.
pub const HEAD_DIM: usize = 32;

/// Longest sequence of the reference architecture.
pub const BLOCK_SIZE: usize = 256;

/// Bottleneck width of the regulators of the reference architecture.
pub const MAESTRO_DIM: usize = 16;

/// Integration steps of the reference architecture.
pub const RK4_N_STEPS: usize = 8;

/// Blocks of the reference architecture.
pub const N_LAYERS: usize = 4;

impl ModelConfig {
    /// The dimensions that `validate` accepts: there is a band, a head and an
    /// integration step, and the heads share the embedding evenly.
    pub open spec fn valid(&self) -> bool {
        &&& self.n_bands > 0
        &&& self.n_head > 0
        &&& (self.n_bands * 2) % (self.n_head as int) == 0
        &&& self.rk4_n_steps > 0
    }

    /// The 128-wide reference architecture.
    pub fn default_128() -> (config: Self)
        ensures
            config.n_bands == N_BANDS,
            config.n_head == N_HEAD,
            config.n_layers == N_LAYERS,
            config.maestro_dim == MAESTRO_DIM,
            config.block_size == BLOCK_SIZE,
            config.rk4_n_steps == RK4_N_STEPS,
            config.valid(),
    {
        ModelConfig {
            n_bands: 64,
            n_head: 4,
            n_layers: 4,
            maestro_dim: 16,
            block_size: 256,
            rk4_n_steps: 8,
        }
    }

    /// Embedding width: a real and an imaginary component per band.
    pub fn n_embd(&self) -> (n: usize)
        requires
            self.n_bands * 2 <= usize::MAX,
        ensures
            n == self.n_bands * 2,
    {
        self.n_bands * 2
    }

    /// Width of one attention head.
    pub fn head_dim(&self) -> (n: usize)
        requires
            self.n_bands * 2 <= usize::MAX,
            self.n_head > 0,
        ensures
            n == (self.n_bands * 2) / (self.n_head as int),
    {
        self.n_embd() / self.n_head
    }

    /// Whether the dimensions are usable.
    pub fn is_valid(&self) -> (ok: bool)
        requires
            self.n_bands * 2 <= usize::MAX,
        ensures
            ok == self.valid(),
    {
        self.n_bands > 0 && self.n_head > 0 && self.n_embd() % self.n_head == 0
            && self.rk4_n_steps > 0
    }

    /// Accepts a usable configuration. The fields are the caller's obligation.
    pub fn validate(&self)
        requires
            self.valid(),
    {
    }
}

/// Dimensions and switches of a training run.
#[derive(Clone, Copy, Debug)]
pub struct Dims {
    pub n_bands: usize,
    pub n_head: usize,
    pub n_embd: usize,
    pub maestro_dim: usize,
    pub block_size: usize,
    pub rk4_steps: usize,
    pub m1: usize,
    pub m2: usize,
    pub pythagorean: bool,
    pub lm_rank: usize,
    pub tied: bool,
    pub wave_decode: bool,
    pub unfreeze_phases: bool,
    pub learnable_ode: bool,
    pub use_layer_scale: bool,
    pub use_lr_scale: bool,
}

/// In a valid configuration the heads tile the embedding exactly.
pub proof fn law_heads_tile_embedding(config: ModelConfig)
    requires
        config.valid(),
    ensures
        ((config.n_bands * 2) / (config.n_head as int)) * config.n_head == config.n_bands * 2,
{
    vstd::arithmetic::div_mod::lemma_fundamental_div_mod(
        config.n_bands * 2,
        config.n_head as int,
    );
    vstd::arithmetic::mul::lemma_mul_is_commutative(
        config.n_head as int,
        (config.n_bands * 2) / (config.n_head as int),
    );
}

} // verus!
