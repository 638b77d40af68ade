//! Whole passes, captured derivatives and the losses that gradients are held against.

use std::cell::RefCell;

use wave_engine::arith::Arith;
use wave_engine::backward::{FfnBlockGrads, NormBack};
use wave_engine::coherence::{
    argmax, compare_decoders, decode_v1, phase_decode, phase_decode_compare, DecodeMode,
};
use wave_engine::config::{Dims, ModelConfig};
use wave_engine::decoder::decode;
use wave_engine::forward::BlockResult;
use wave_engine::gradient_check::{mean_native_loss, wave_loss};
use wave_engine::kerr::{kerr_derivative, rk4_step_public};
use wave_engine::kerr_capture::{
    kerr_derivative_captured, kerr_derivative_into, rk4_step_into, DerivativeCapture,
};
use wave_engine::layers::layer_norm;
use wave_engine::loss::cross_entropy;
use wave_engine::passes::{
    backward, forward_from_layer, forward_with_cache, forward_with_cache_from_waves,
};
use wave_engine::phase_loss::phase_native_loss_value;
use wave_engine::wave_init::{draw_runs, init_model};
use wave_engine::wave_model::WavePacketModel;
use wave_engine::weights::LayerNormWeights;

/// Single precision.
struct F32;

impl Arith<f32> for F32 {
    fn ratio(&self, num: u64, den: u64) -> f32 {
        (num as f64 / den as f64) as f32
    }
    fn count(&self, n: usize) -> f32 {
        n as f32
    }
    fn lowest(&self) -> f32 {
        f32::NEG_INFINITY
    }
    fn plus(&self, a: f32, b: f32) -> f32 {
        a + b
    }
    fn minus(&self, a: f32, b: f32) -> f32 {
        a - b
    }
    fn times(&self, a: f32, b: f32) -> f32 {
        a * b
    }
    fn over(&self, a: f32, b: f32) -> f32 {
        a / b
    }
    fn larger(&self, a: f32, b: f32) -> f32 {
        a.max(b)
    }
    fn negated(&self, a: f32) -> f32 {
        -a
    }
    fn exp(&self, a: f32) -> f32 {
        a.exp()
    }
    fn ln(&self, a: f32) -> f32 {
        a.ln()
    }
    fn root(&self, a: f32) -> f32 {
        a.sqrt()
    }
    fn tanh(&self, a: f32) -> f32 {
        a.tanh()
    }
    fn sin(&self, a: f32) -> f32 {
        a.sin()
    }
    fn cos(&self, a: f32) -> f32 {
        a.cos()
    }
    fn abs(&self, a: f32) -> f32 {
        a.abs()
    }
    fn ceiling(&self, a: f32) -> f32 {
        a.ceil()
    }
    fn angle(&self, y: f32, x: f32) -> f32 {
        y.atan2(x)
    }
    fn rest(&self, a: f32, b: f32) -> f32 {
        a.rem_euclid(b)
    }
    fn raised(&self, a: f32, b: f32) -> f32 {
        a.powf(b)
    }
    fn power(&self, a: f32, n: usize) -> f32 {
        a.powi(n as i32)
    }
    fn pi(&self) -> f32 {
        std::f32::consts::PI
    }
    fn exceeds(&self, a: f32, b: f32) -> bool {
        a > b
    }
    fn at_most(&self, a: f32, b: f32) -> bool {
        a <= b
    }
    fn equals(&self, a: f32, b: f32) -> bool {
        a == b
    }
    fn whole(&self, a: f32) -> usize {
        a as usize
    }
}

fn close(a: f32, b: f32) -> bool {
    (a - b).abs() < 1e-4
}

fn dims() -> Dims {
    Dims {
        n_bands: 2,
        n_head: 2,
        n_embd: 4,
        maestro_dim: 3,
        block_size: 4,
        rk4_steps: 2,
        m1: 3,
        m2: 5,
        pythagorean: false,
        lm_rank: 0,
        tied: false,
        wave_decode: false,
        unfreeze_phases: false,
        learnable_ode: true,
        use_layer_scale: true,
        use_lr_scale: false,
    }
}

fn model() -> WavePacketModel<f32> {
    let d = dims();
    let n: usize = draw_runs(&d, 1, 3, 3).iter().map(|r| r.count).sum();
    let draws: Vec<f32> = (0..n).map(|i| ((i * 37 + 11) % 101) as f32 / 101.0 - 0.5).collect();
    let wte = vec![vec![1.0, 0.0, 0.0, 1.0], vec![0.0, 1.0, 1.0, 0.0], vec![0.5; 4]];
    let mut m = init_model(&F32, 3, 3, 1, &d, 0.1, 0.2, &draws, wte, vec![vec![0.0; 4]; 4]);
    m.layer_scale = vec![1.0, 0.5, 2.0];
    m.output_corrector = vec![0.0; 2];
    m
}

/// A block whose two parts are the same everywhere.
fn flat(layer: usize, t: usize) -> BlockResult<f32, usize, u8> {
    BlockResult {
        attn_out: vec![vec![1.0; 4]; t],
        ffn_out: vec![vec![layer as f32; 4]; t],
        att_weights: vec![],
        ffn_cache: layer,
        attn_cache: None,
    }
}

#[test]
fn forward_passes_walk_the_layers_in_order() {
    let m = model();
    let asked = RefCell::new(Vec::new());
    let cache = forward_with_cache(
        &F32,
        &m,
        vec![vec![1.0, 0.0, 2.0, 1.0]; 2],
        Some(2),
        2,
        false,
        4,
        |layer: usize, memory: Option<usize>, normed: &Vec<Vec<f32>>| {
            asked.borrow_mut().push((layer, memory, normed.clone()));
            flat(layer, 2)
        },
    );
    let seen = asked.into_inner();
    assert_eq!(seen.iter().map(|a| a.0).collect::<Vec<usize>>(), vec![0, 1, 2]);
    assert_eq!(seen.iter().map(|a| a.1).collect::<Vec<Option<usize>>>(), vec![Some(0), Some(1), None]);
    for b in 0..3 {
        let c = &cache.block_caches[b];
        assert_eq!(c.normed, seen[b].2);
        assert_eq!(c.ffn_backend_cache, Some(b));
        let w = &m.blocks[b].ln;
        assert_eq!(c.normed[1], layer_norm(&F32, &c.input[1], &w.weight, &w.bias));
    }
    // Each block adds its factor times one plus its number.
    assert_eq!(cache.block_caches[1].input[0], vec![2.0, 1.0, 3.0, 2.0]);
    assert_eq!(cache.block_caches[2].input[0], vec![3.0, 2.0, 4.0, 3.0]);
    assert_eq!(cache.pre_ln_f[0], vec![9.0, 8.0, 10.0, 9.0]);
    assert_eq!(cache.logits, decode(&F32, &m, 2, false, 4, &cache.post_ln_f));
}

#[test]
fn wave_passes_have_no_logits() {
    let m = model();
    let cache = forward_with_cache_from_waves(
        &F32,
        &m,
        vec![vec![1.0, 0.0, 2.0, 1.0]; 2],
        4,
        |layer: usize, memory: Option<usize>, _normed: &Vec<Vec<f32>>| {
            assert_eq!(memory, None);
            flat(layer, 2)
        },
    );
    assert_eq!(cache.logits, vec![Vec::<f32>::new(); 2]);
    assert_eq!(cache.pre_ln_f[0], vec![9.0, 8.0, 10.0, 9.0]);
}

#[test]
fn states_are_put_in_at_a_layer() {
    let mut m = model();
    m.layer_scale = vec![1.0, 1.0, 0.5];
    let (out, per_layer) = forward_from_layer(
        &F32,
        &m,
        &[1.0, 2.0, 3.0, 4.0],
        1,
        |layer: usize, x: &Vec<f32>| x.iter().map(|v| v + layer as f32).collect::<Vec<f32>>(),
    );
    assert_eq!(per_layer[0], vec![1.0, 2.0, 3.0, 4.0]);
    assert_eq!(per_layer[1], vec![2.0, 3.0, 4.0, 5.0]);
    // A factor of one half takes half of the way.
    assert_eq!(per_layer[2], vec![3.0, 4.0, 5.0, 6.0]);
    assert_eq!(out, layer_norm(&F32, &per_layer[2], &m.ln_f.weight, &m.ln_f.bias));
}

fn empty_grads() -> FfnBlockGrads<f32> {
    FfnBlockGrads {
        d_out_proj_w: vec![vec![0.0; 4]; 4],
        d_out_proj_b: vec![1.0; 4],
        d_mae_out_pr_w: vec![vec![0.0; 3]; 4],
        d_mae_out_pr_b: vec![0.0; 4],
        d_mae_out_sq_w: vec![vec![0.0; 4]; 3],
        d_mae_out_sq_b: vec![0.0; 3],
        d_mae_in_pr_w: vec![vec![0.0; 3]; 4],
        d_mae_in_pr_b: vec![0.0; 4],
        d_mae_in_sq_w: vec![vec![0.0; 4]; 3],
        d_mae_in_sq_b: vec![0.0; 3],
        d_kerr_gamma_raw: Some(vec![0.5, 0.25]),
        d_kerr_alpha: Some(3.0),
        d_kerr_beta: None,
        d_phase_correction: None,
    }
}

#[test]
fn backward_passes_walk_the_layers_back() {
    let m = model();
    let d = dims();
    let block = |layer: usize, _memory: Option<usize>, _normed: &Vec<Vec<f32>>| flat(layer, 2);
    let hidden = vec![vec![1.0, 0.0, 2.0, 1.0], vec![0.5, 1.0, 0.0, 0.3]];
    let cache = forward_with_cache(&F32, &m, hidden, None, 2, false, 4, block);
    let asked = RefCell::new(Vec::new());
    let (loss, grads) = backward(
        &F32,
        &m,
        &cache,
        &[0, 2],
        d,
        0.0,
        |g: &Vec<Vec<f32>>, _x: &Vec<Vec<f32>>, _w: &LayerNormWeights<f32>| NormBack {
            d_x: g.clone(),
            d_w: vec![vec![1.0; 4]; 2],
            d_b: vec![vec![2.0; 4]; 2],
        },
        |layer: usize, c: &wave_engine::forward::BlockCache<f32, usize, u8>, g: &Vec<Vec<f32>>| {
            asked.borrow_mut().push((layer, c.ffn_backend_cache, g[0][0]));
            (vec![vec![0.0; 4]; 2], empty_grads())
        },
    );
    assert!(close(loss, cross_entropy(&F32, &cache.logits, &[0, 2]).0));
    let seen = asked.into_inner();
    assert_eq!(
        seen.iter().map(|a| (a.0, a.1)).collect::<Vec<(usize, Option<usize>)>>(),
        vec![(2, Some(2)), (1, Some(1)), (0, Some(0))]
    );
    // The feed-forward parts send nothing back, so every block sees the same gradient, times
    // its own factor.
    assert!(close(seen[0].2, 2.0 * seen[2].2) && close(seen[1].2, 0.5 * seen[2].2));
    assert_eq!(grads.ln_f_w, vec![2.0; 4]);
    assert_eq!(grads.block_ln_b, vec![vec![4.0; 4]; 3]);
    assert_eq!(grads.block_ffn_out_proj_b, vec![vec![1.0; 4]; 3]);
    assert_eq!(grads.block_ffn_kerr_gamma_raw[1], vec![0.5, 0.25]);
    assert_eq!((grads.block_ffn_kerr_alpha[2], grads.block_ffn_kerr_beta[2]), (3.0, 0.0));
    assert_eq!(grads.lm_head.len(), 3);
}

#[test]
fn derivatives_are_taken_apart() {
    let n = 6;
    let at = |k: usize, f: usize| ((k * f + 3) % 7) as f32 / 7.0 - 0.3;
    let r: Vec<f32> = (0..n).map(|k| at(k, 5)).collect();
    let s: Vec<f32> = (0..n).map(|k| at(k, 3)).collect();
    let gamma = vec![0.1; n];
    let omega: Vec<f32> = (0..n).map(|k| k as f32 / 6.0).collect();
    for chi in [0.0, 0.4] {
        let (dr, ds) = kerr_derivative(&F32, &r, &s, &gamma, &omega, 0.2, 0.3, chi);
        let mut br = vec![9.0; n + 1];
        let mut bs = vec![9.0; n + 1];
        kerr_derivative_into(&F32, &r, &s, &gamma, &omega, 0.2, 0.3, chi, &mut br, &mut bs);
        assert_eq!((br[..n].to_vec(), br[n]), (dr.clone(), 9.0));
        assert_eq!(bs[..n].to_vec(), ds);
        let mut c = DerivativeCapture {
            damping_dr: vec![0.0; n],
            damping_ds: vec![0.0; n],
            phase_dr: vec![0.0; n],
            phase_ds: vec![0.0; n],
            fwm_dr: vec![0.0; n],
            fwm_ds: vec![0.0; n],
        };
        kerr_derivative_captured(
            &F32, &r, &s, &gamma, &omega, 0.2, 0.3, chi, &mut br, &mut bs, &mut c,
        );
        assert_eq!(br[..n].to_vec(), dr);
        for k in 0..n {
            assert!(close(c.damping_dr[k], -0.1 * r[k]));
            assert!(close(c.damping_dr[k] + c.phase_dr[k] + c.fwm_dr[k], dr[k]));
            assert!(close(c.damping_ds[k] + c.phase_ds[k] + c.fwm_ds[k], ds[k]));
        }
        assert_eq!(c.fwm_dr.iter().all(|x| *x == 0.0), chi == 0.0);
        let damping = c.damping_ds.clone();
        kerr_derivative_captured(
            &F32, &r, &s, &gamma, &omega, 0.2, 0.3, chi, &mut br, &mut bs, &mut c,
        );
        assert!(close(c.damping_ds[1], 2.0 * damping[1]));
    }
    let w = [1.0 / 6.0, 1.0 / 3.0, 1.0 / 3.0, 1.0 / 6.0];
    let (r2, s2) = rk4_step_public(&F32, &r, &s, 0.1, &gamma, &omega, 0.2, 0.3, 0.4, &w);
    let mut ro = vec![0.0; n];
    let mut so = vec![0.0; n];
    rk4_step_into(&F32, &r, &s, 0.1, &gamma, &omega, 0.2, 0.3, 0.4, &w, &mut ro, &mut so);
    assert_eq!((ro, so), (r2, s2));
    assert_eq!(ModelConfig::default_128().rk4_dt(&F32), 0.125);
}

#[test]
fn losses_are_averaged_over_positions() {
    let m = model();
    let post = vec![vec![0.3, 0.1, -0.5, 0.2], vec![1.0, 0.4, 0.3, 0.9]];
    let value = |p: usize, t: usize| {
        phase_native_loss_value(&F32, &post[p], &m.wte, t, 2, 1.0, &m.output_corrector, 1e-10)
    };
    let mean = mean_native_loss(&F32, &post, &m.wte, &[1, 0], 2, 1.0, &m.output_corrector, 1e-10);
    assert!(close(mean, (value(0, 1) + value(1, 0)) / 2.0));
    let none: Vec<Vec<f32>> = vec![];
    assert_eq!(
        mean_native_loss(&F32, &none, &m.wte, &[], 2, 1.0, &m.output_corrector, 1e-10),
        0.0
    );
    let targets = vec![vec![0.3, 0.1, -0.5, 0.2], vec![0.0, 0.4, 0.3, 0.9], vec![9.0; 4]];
    assert!(close(wave_loss(&F32, &post, &targets, 4), 0.125));
    assert_eq!(wave_loss(&F32, &none, &targets, 4), 0.0);
}

#[test]
fn decoders_are_compared_on_the_last_position() {
    let m = model();
    let post = vec![vec![9.0; 4], vec![0.1, 1.0, 1.0, 0.0]];
    let (first, second) = compare_decoders(&F32, &m, &post, 2, DecodeMode::MaxHarmonic);
    assert_eq!(first, decode_v1(&F32, &post[1], &m.wte, &m.output_corrector, 2, 3));
    assert_eq!((argmax(&F32, &first), second.len()), (1, 3));
    let (a, b, rows) = phase_decode_compare(&F32, &m, &post, 2);
    let (c, d, _) = phase_decode(&F32, &post[1], &m.wte, &m.lm_head, 2, 3);
    assert_eq!((a, b, rows.len()), (c, d, 3));
}
