//! Gradients against finite differences, and integrations against one another.

use wave_engine::arith::Arith;
use wave_engine::backprop::{regulator_back_on, transposed_on, StartState};
use wave_engine::ffn::regulate;
use wave_engine::kerr::kerr_derivative;
use wave_engine::layers::{linear_fn, softplus, traced};
use wave_engine::loss::cross_entropy;
use wave_engine::ode_backward::{ode_backward, ode_forward_with_cache};
use wave_engine::phase_loss::{
    phase_native_loss, phase_native_loss_unscaled, phase_native_loss_value,
};
use wave_engine::split_band::{
    split_band_backward, split_band_forward_unmixed, split_band_forward_with_cache,
};
use wave_engine::weights::{KerrWeights, LinearWeights, MaestroWeights};

/// Single precision.
struct F32;

impl Arith<f32> for F32 {
    fn ratio(&self, num: u64, den: u64) -> f32 {
        (num as f64 / den as f64) as f32
    }
    fn count(&self, n: usize) -> f32 {
        n as f32
    }
    fn lowest(&self) -> f32 {
        f32::NEG_INFINITY
    }
    fn plus(&self, a: f32, b: f32) -> f32 {
        a + b
    }
    fn minus(&self, a: f32, b: f32) -> f32 {
        a - b
    }
    fn times(&self, a: f32, b: f32) -> f32 {
        a * b
    }
    fn over(&self, a: f32, b: f32) -> f32 {
        a / b
    }
    fn larger(&self, a: f32, b: f32) -> f32 {
        a.max(b)
    }
    fn negated(&self, a: f32) -> f32 {
        -a
    }
    fn exp(&self, a: f32) -> f32 {
        a.exp()
    }
    fn ln(&self, a: f32) -> f32 {
        a.ln()
    }
    fn root(&self, a: f32) -> f32 {
        a.sqrt()
    }
    fn tanh(&self, a: f32) -> f32 {
        a.tanh()
    }
    fn sin(&self, a: f32) -> f32 {
        a.sin()
    }
    fn cos(&self, a: f32) -> f32 {
        a.cos()
    }
    fn abs(&self, a: f32) -> f32 {
        a.abs()
    }
    fn ceiling(&self, a: f32) -> f32 {
        a.ceil()
    }
    fn angle(&self, y: f32, x: f32) -> f32 {
        y.atan2(x)
    }
    fn rest(&self, a: f32, b: f32) -> f32 {
        a.rem_euclid(b)
    }
    fn raised(&self, a: f32, b: f32) -> f32 {
        a.powf(b)
    }
    fn power(&self, a: f32, n: usize) -> f32 {
        a.powi(n as i32)
    }
    fn pi(&self) -> f32 {
        std::f32::consts::PI
    }
    fn exceeds(&self, a: f32, b: f32) -> bool {
        a > b
    }
    fn at_most(&self, a: f32, b: f32) -> bool {
        a <= b
    }
    fn equals(&self, a: f32, b: f32) -> bool {
        a == b
    }
    fn whole(&self, a: f32) -> usize {
        a as usize
    }
}

/// Double precision.
struct F64;

impl Arith<f64> for F64 {
    fn ratio(&self, num: u64, den: u64) -> f64 {
        num as f64 / den as f64
    }
    fn count(&self, n: usize) -> f64 {
        n as f64
    }
    fn lowest(&self) -> f64 {
        f64::NEG_INFINITY
    }
    fn plus(&self, a: f64, b: f64) -> f64 {
        a + b
    }
    fn minus(&self, a: f64, b: f64) -> f64 {
        a - b
    }
    fn times(&self, a: f64, b: f64) -> f64 {
        a * b
    }
    fn over(&self, a: f64, b: f64) -> f64 {
        a / b
    }
    fn larger(&self, a: f64, b: f64) -> f64 {
        a.max(b)
    }
    fn negated(&self, a: f64) -> f64 {
        -a
    }
    fn exp(&self, a: f64) -> f64 {
        a.exp()
    }
    fn ln(&self, a: f64) -> f64 {
        a.ln()
    }
    fn root(&self, a: f64) -> f64 {
        a.sqrt()
    }
    fn tanh(&self, a: f64) -> f64 {
        a.tanh()
    }
    fn sin(&self, a: f64) -> f64 {
        a.sin()
    }
    fn cos(&self, a: f64) -> f64 {
        a.cos()
    }
    fn abs(&self, a: f64) -> f64 {
        a.abs()
    }
    fn ceiling(&self, a: f64) -> f64 {
        a.ceil()
    }
    fn angle(&self, y: f64, x: f64) -> f64 {
        y.atan2(x)
    }
    fn rest(&self, a: f64, b: f64) -> f64 {
        a.rem_euclid(b)
    }
    fn raised(&self, a: f64, b: f64) -> f64 {
        a.powf(b)
    }
    fn power(&self, a: f64, n: usize) -> f64 {
        a.powi(n as i32)
    }
    fn pi(&self) -> f64 {
        std::f64::consts::PI
    }
    fn exceeds(&self, a: f64, b: f64) -> bool {
        a > b
    }
    fn at_most(&self, a: f64, b: f64) -> bool {
        a <= b
    }
    fn equals(&self, a: f64, b: f64) -> bool {
        a == b
    }
    fn whole(&self, a: f64) -> usize {
        a as usize
    }
}

fn mk_weights(n_bands: usize, chi: f32) -> KerrWeights<f32> {
    KerrWeights {
        gamma_raw: vec![0.0_f32; n_bands],
        omega: (0..n_bands).map(|k| (k + 1) as f32 / n_bands as f32).collect(),
        phase_correction: vec![0.0_f32; n_bands],
        alpha: 0.1,
        beta: 0.2,
        chi,
        rk4_weights: [1.0 / 6.0, 1.0 / 3.0, 1.0 / 3.0, 1.0 / 6.0],
        rk4_n_steps: 16,
        coherent_matrix: Vec::new(),
        mix_strength: 0.0,
    }
}

fn mk_input(n_bands: usize, seed: u32) -> Vec<f32> {
    let n_embd = n_bands * 2;
    let mut rng = seed.wrapping_mul(2654435761);
    (0..n_embd)
        .map(|_| {
            rng = rng.wrapping_mul(2654435761).wrapping_add(12345);
            let v = (rng as f32) / (u32::MAX as f32);
            (v - 0.5) * 0.4
        })
        .collect()
}

/// With one band there are no neighbours: both integrations run the same derivative.
#[test]
fn split_matches_monolithic_single_band() {
    let w = mk_weights(1, 0.0);
    let x = mk_input(1, 42);

    let (out_mono, _) = ode_forward_with_cache(&F32, &x, &w);
    let (out_split, _) = split_band_forward_with_cache(&F32, &x, &w);

    assert_eq!(out_mono.len(), out_split.len());
    for i in 0..out_mono.len() {
        assert!(
            (out_mono[i] - out_split[i]).abs() < 1e-6,
            "single-band output[{}] mismatch: mono={} split={}",
            i,
            out_mono[i],
            out_split[i]
        );
    }
}

#[test]
fn split_output_is_close_to_monolithic_84_bands() {
    let w = mk_weights(84, 0.0);
    let x = mk_input(84, 42);

    let (out_mono, _) = ode_forward_with_cache(&F32, &x, &w);
    let (out_split, _) = split_band_forward_with_cache(&F32, &x, &w);

    assert_eq!(out_mono.len(), out_split.len());

    let mut max_abs = 0.0_f32;
    let mut max_rel = 0.0_f32;
    let mut mean_abs = 0.0_f32;
    for i in 0..out_mono.len() {
        let abs = (out_mono[i] - out_split[i]).abs();
        let rel = abs / out_mono[i].abs().max(1e-6);
        max_abs = max_abs.max(abs);
        max_rel = max_rel.max(rel);
        mean_abs += abs;
    }
    mean_abs /= out_mono.len() as f32;

    println!(
        "84-band split vs mono: max_abs={:.6} max_rel={:.6} mean_abs={:.6}",
        max_abs, max_rel, mean_abs
    );
    assert!(max_abs < 0.1, "split output drift too large: max_abs={}", max_abs);
}

#[test]
fn cache_shape() {
    let w = mk_weights(84, 0.0);
    let x = mk_input(84, 1);
    let (_out, cache) = split_band_forward_with_cache(&F32, &x, &w);
    assert_eq!(cache.n_bands, 84);
    assert_eq!(cache.rk4_steps, 16);
    let steps_a = 16 / 2;
    let steps_b = 16 - steps_a;
    for k in 0..84 {
        assert_eq!(cache.a_state_r[k].len(), steps_a + 1);
        assert_eq!(cache.a_state_s[k].len(), steps_a + 1);
        assert_eq!(cache.b_state_r[k].len(), steps_b + 1);
        assert_eq!(cache.b_state_s[k].len(), steps_b + 1);
    }
    assert_eq!(cache.ns_frozen_a.len(), 84);
    assert_eq!(cache.ns_frozen_b.len(), 84);
}

#[test]
#[should_panic(expected = "split-band Phase A requires chi=0")]
fn chi_nonzero_panics() {
    let w = mk_weights(84, 0.03);
    let x = mk_input(84, 1);
    let _ = split_band_forward_unmixed(&F32, &x, &w).expect("split-band Phase A requires chi=0");
}

/// The gradients of logits are those of the mean loss.
#[test]
fn logit_gradients_match_differences() {
    let logits = vec![vec![0.3, -0.7, 1.1, 0.2], vec![-0.4, 0.9, 0.1, -1.3]];
    let targets = [2, 0];
    let (_, grads) = cross_entropy(&F64, &logits, &targets);
    let h = 1e-5;
    for p in 0..2 {
        for v in 0..4 {
            let mut up = logits.clone();
            let mut down = logits.clone();
            up[p][v] += h;
            down[p][v] -= h;
            let slope = (cross_entropy(&F64, &up, &targets).0
                - cross_entropy(&F64, &down, &targets).0)
                / (2.0 * h);
            assert!((slope - grads[p][v]).abs() < 1e-8);
        }
    }
}

/// The gradients that a regulator hands back are those of its output.
#[test]
fn regulator_gradients_match_differences() {
    let m = MaestroWeights {
        squeeze: LinearWeights { w: vec![vec![0.3, -0.8], vec![1.2, 0.5]], b: vec![0.1, -0.2] },
        process_1: LinearWeights { w: vec![vec![0.7, 0.4], vec![-0.6, 0.9]], b: vec![0.0, 0.3] },
    };
    let x = vec![vec![0.5, -0.9]];
    let d = [0.8, -1.4];
    let out = regulate(&F64, &m, &x, 2);
    let start = StartState::none(&F64, 2, 2);
    let ds = vec![traced(&F64, &d)];
    let (back, grads) = regulator_back_on(&F64, &m, &ds, &out.sq, &out.act, &x, 2, &start);
    assert_eq!(grads.pr_b, d.to_vec());
    let back = &back[0].v;
    let h = 1e-5;
    for j in 0..2 {
        let mut up = x.clone();
        let mut down = x.clone();
        up[0][j] += h;
        down[0][j] -= h;
        let (a, b) = (regulate(&F64, &m, &up, 2).sum, regulate(&F64, &m, &down, 2).sum);
        let slope: f64 = (0..2).map(|i| d[i] * (a[0][i] - b[0][i]) / (2.0 * h)).sum();
        assert!((slope - back[j]).abs() < 1e-7);
    }
}

/// Four-wave mixing is not supported by the split integration.
#[test]
fn chi_nonzero_is_refused() {
    let w = mk_weights(84, 0.03);
    let x = mk_input(84, 1);
    assert!(split_band_forward_unmixed(&F32, &x, &w).is_none());
    let still = mk_weights(84, 0.0);
    let done = split_band_forward_unmixed(&F32, &x, &still).unwrap();
    assert_eq!(done.0, split_band_forward_with_cache(&F32, &x, &still).0);
}

#[test]
fn backward_matches_fd_small() {
    let w = mk_weights(8, 0.0);
    let x = mk_input(8, 7);

    let (out_base, cache) = split_band_forward_with_cache(&F32, &x, &w);
    let d_output: Vec<f32> = vec![1.0_f32; out_base.len()];
    let (d_x_analytical, _grads) = split_band_backward(&F32, &d_output, &cache, &w);

    let eps: f32 = 1e-3;
    let mut max_rel = 0.0_f32;
    let mut n_checked = 0usize;
    let mut n_within = 0usize;
    for i in 0..x.len() {
        let an = d_x_analytical[i];
        let mut x_plus = x.clone();
        x_plus[i] += eps;
        let mut x_minus = x.clone();
        x_minus[i] -= eps;
        let (out_p, _) = split_band_forward_with_cache(&F32, &x_plus, &w);
        let (out_m, _) = split_band_forward_with_cache(&F32, &x_minus, &w);
        let l_plus: f64 = out_p.iter().map(|&v| v as f64).sum();
        let l_minus: f64 = out_m.iter().map(|&v| v as f64).sum();
        let fd = ((l_plus - l_minus) / (2.0_f64 * eps as f64)) as f32;
        let denom = an.abs().max(fd.abs()).max(1e-4);
        let rel = (an - fd).abs() / denom;
        n_checked += 1;
        if rel < 0.01 {
            n_within += 1;
        }
        if rel > max_rel {
            max_rel = rel;
        }
    }
    println!(
        "split-band backward FD check: {}/{} within 1% (max_rel={:.4})",
        n_within, n_checked, max_rel
    );
    assert!(
        n_within >= n_checked * 9 / 10,
        "FD agreement too low: {}/{} within 1%",
        n_within,
        n_checked
    );
}

#[test]
fn alpha_gradient_matches_fd() {
    let w_base = mk_weights(8, 0.0);
    let x = mk_input(8, 11);

    let (_out, cache) = split_band_forward_with_cache(&F32, &x, &w_base);
    let d_output: Vec<f32> = vec![1.0_f32; x.len()];
    let (_d_x, grads) = split_band_backward(&F32, &d_output, &cache, &w_base);

    let eps: f32 = 1e-3;
    let mut w_plus = mk_weights(8, 0.0);
    w_plus.alpha += eps;
    let mut w_minus = mk_weights(8, 0.0);
    w_minus.alpha -= eps;
    let (out_p, _) = split_band_forward_with_cache(&F32, &x, &w_plus);
    let (out_m, _) = split_band_forward_with_cache(&F32, &x, &w_minus);
    let l_plus: f64 = out_p.iter().map(|&v| v as f64).sum();
    let l_minus: f64 = out_m.iter().map(|&v| v as f64).sum();
    let fd = ((l_plus - l_minus) / (2.0_f64 * eps as f64)) as f32;
    let an = grads.d_alpha;
    let rel = (an - fd).abs() / an.abs().max(fd.abs()).max(1e-4);
    println!("d_alpha: analytical={:.6} fd={:.6} rel={:.4}", an, fd, rel);
    assert!(rel < 0.02, "d_alpha mismatch: an={} fd={} rel={}", an, fd, rel);
}

fn small_embeddings() -> Vec<Vec<f32>> {
    vec![
        vec![1.0, 0.0, 0.0, 1.0, 1.0, 0.0, 0.0, 1.0],
        vec![0.0, 1.0, 1.0, 0.0, 0.0, 1.0, 1.0, 0.0],
        vec![-1.0, 0.0, 0.0, -1.0, -1.0, 0.0, 0.0, -1.0],
    ]
}

fn wide(xs: &[f32]) -> Vec<f64> {
    xs.iter().map(|&x| x as f64).collect()
}

/// The loss in double precision.
fn loss_f64(hidden: &[f32], embeddings: &[Vec<f32>], target: usize, corrector: &[f32]) -> f64 {
    let rows: Vec<Vec<f64>> = embeddings.iter().map(|e| wide(e)).collect();
    phase_native_loss_value(
        &F64,
        &wide(hidden),
        &rows,
        target,
        corrector.len(),
        1.0,
        &wide(corrector),
        1e-30,
    )
}

#[test]
fn test_f64_loss_matches_f32_loss_within_tolerance() {
    let n_bands = 4;
    let hidden: Vec<f32> = vec![0.5, 0.3, -0.2, 0.8, 0.1, -0.4, 0.7, 0.2];
    let embeddings = small_embeddings();
    let corrector = vec![0.1, -0.2, 0.05, 0.3];
    let (loss_f32, _, _) =
        phase_native_loss_unscaled(&F32, &hidden, &embeddings, 1, n_bands, 1.0, &corrector);
    let loss_f64 = loss_f64(&hidden, &embeddings, 1, &corrector);
    let diff = (loss_f32 as f64 - loss_f64).abs();
    assert!(
        diff < 1e-5,
        "f32 and f64 loss should agree: f32={} f64={} diff={}",
        loss_f32,
        loss_f64,
        diff
    );
}

#[test]
fn test_f64_fd_resolves_where_f32_cancels() {
    let n_bands = 4;
    let hidden_base: Vec<f32> = vec![0.5, 0.3, -0.2, 0.8, 0.1, -0.4, 0.7, 0.2];
    let embeddings = small_embeddings();
    let corrector = vec![0.1, -0.2, 0.05, 0.3];
    let eps = 1e-6_f32;

    let mut h_plus = hidden_base.clone();
    let mut h_minus = hidden_base.clone();
    h_plus[0] += eps;
    h_minus[0] -= eps;

    let (l_plus_f32, _, _) =
        phase_native_loss_unscaled(&F32, &h_plus, &embeddings, 1, n_bands, 1.0, &corrector);
    let (l_minus_f32, _, _) =
        phase_native_loss_unscaled(&F32, &h_minus, &embeddings, 1, n_bands, 1.0, &corrector);
    let fd_f32 = (l_plus_f32 - l_minus_f32) / (2.0 * eps);

    let l_plus_f64 = loss_f64(&h_plus, &embeddings, 1, &corrector);
    let l_minus_f64 = loss_f64(&h_minus, &embeddings, 1, &corrector);
    let fd_f64 = (l_plus_f64 - l_minus_f64) / (2.0_f64 * eps as f64);

    if fd_f32 == 0.0 {
        assert!(fd_f64 != 0.0, "f64 FD should not cancel where f32 does: fd_f64={}", fd_f64);
    }
    let (_, grad_f32, _) =
        phase_native_loss_unscaled(&F32, &hidden_base, &embeddings, 1, n_bands, 1.0, &corrector);
    let an = grad_f32[0] as f64;
    let err_f64 = (fd_f64 - an).abs() / an.abs().max(1e-8);
    assert!(
        err_f64 < 0.1,
        "f64 FD should agree with analytical: fd={} an={} err={}",
        fd_f64,
        an,
        err_f64
    );
}

/// Holds the gradients of a loss on hidden states and phase rotations against finite
/// differences.
fn check_phase_loss(f: impl Fn(&[f32], &[f32]) -> (f32, Vec<f32>, Vec<f32>)) {
    let hidden: Vec<f32> = vec![0.5, 0.3, -0.2, 0.8, 0.1, -0.4, 0.7, 0.2];
    let corrector: Vec<f32> = vec![0.1, -0.2, 0.05, 0.3];
    let (loss, grad, d_corr) = f(&hidden, &corrector);
    assert!(loss > 0.0, "Loss should be positive");

    let eps = 1e-4;
    for i in 0..hidden.len() {
        let mut h_plus = hidden.clone();
        let mut h_minus = hidden.clone();
        h_plus[i] += eps;
        h_minus[i] -= eps;
        let (l_plus, _, _) = f(&h_plus, &corrector);
        let (l_minus, _, _) = f(&h_minus, &corrector);
        let fd = (l_plus - l_minus) / (2.0 * eps);
        let rel_err = if grad[i].abs() > 1e-6 {
            (fd - grad[i]).abs() / grad[i].abs()
        } else {
            (fd - grad[i]).abs()
        };
        assert!(
            rel_err < 0.05,
            "Hidden grad mismatch at {}: fd={:.6} analytical={:.6} rel_err={:.4}",
            i,
            fd,
            grad[i],
            rel_err
        );
    }
    for i in 0..corrector.len() {
        let mut c_plus = corrector.clone();
        let mut c_minus = corrector.clone();
        c_plus[i] += eps;
        c_minus[i] -= eps;
        let (l_plus, _, _) = f(&hidden, &c_plus);
        let (l_minus, _, _) = f(&hidden, &c_minus);
        let fd = (l_plus - l_minus) / (2.0 * eps);
        let rel_err = if d_corr[i].abs() > 1e-6 {
            (fd - d_corr[i]).abs() / d_corr[i].abs()
        } else {
            (fd - d_corr[i]).abs()
        };
        assert!(
            rel_err < 0.05,
            "Corrector grad mismatch at {}: fd={:.6} analytical={:.6} rel_err={:.4}",
            i,
            fd,
            d_corr[i],
            rel_err
        );
    }
}

#[test]
fn test_phase_loss_gradient() {
    let embeddings = small_embeddings();
    check_phase_loss(|h, c| phase_native_loss(&F32, h, &embeddings, 1, 4, 1.0, c));
}

#[test]
fn phase_loss_test_phase_loss_gradient() {
    let embeddings = small_embeddings();
    check_phase_loss(|h, c| phase_native_loss_unscaled(&F32, h, &embeddings, 1, 4, 1.0, c));
}

/// The two losses differ by the width of the embedding under the exponential.
#[test]
fn width_scales_the_loss() {
    let embeddings = small_embeddings();
    let hidden: Vec<f32> = vec![0.5, 0.3, -0.2, 0.8, 0.1, -0.4, 0.7, 0.2];
    let none = vec![0.0; 4];
    let (scaled, _, _) = phase_native_loss(&F32, &hidden, &embeddings, 1, 4, 1.0, &none);
    let (plain, _, _) = phase_native_loss_unscaled(&F32, &hidden, &embeddings, 1, 4, 1.0, &none);
    let dots: Vec<f64> =
        embeddings.iter().map(|e| e.iter().zip(&hidden).map(|(a, b)| (a * b) as f64).sum()).collect();
    let share = |scale: f64| -> f64 {
        let all: f64 = dots.iter().map(|d| (d * scale).exp()).sum();
        -((dots[1] * scale).exp() / all).ln()
    };
    assert!((plain as f64 - share(1.0)).abs() < 1e-5);
    assert!((scaled as f64 - share(1.0 / (8.0f64).sqrt())).abs() < 1e-5);
}

fn make_test_weights(n_bands: usize) -> KerrWeights<f32> {
    let gamma_raw_val = ((0.1f32).exp() - 1.0).ln();
    let mut w = mk_weights(n_bands, 0.0);
    w.gamma_raw = vec![gamma_raw_val; n_bands];
    w.rk4_n_steps = 4;
    w
}

fn deriv(
    r: &[f32],
    s: &[f32],
    gamma: &[f32],
    omega: &[f32],
    alpha: f32,
    beta: f32,
) -> (Vec<f32>, Vec<f32>) {
    kerr_derivative(&F32, r, s, gamma, omega, alpha, beta, 0.0)
}

#[test]
fn test_forward_matches_original() {
    let n_bands = 8;
    let weights = make_test_weights(n_bands);
    let x: Vec<f32> = (0..n_bands * 2).map(|i| (i as f32 * 0.1).sin()).collect();

    let (out_cached, _cache) = ode_forward_with_cache(&F32, &x, &weights);

    let gamma: Vec<f32> = weights.gamma_raw.iter().map(|&g| softplus(&F32, g)).collect();
    let mut r: Vec<f32> = (0..n_bands).map(|k| x[k * 2]).collect();
    let mut s: Vec<f32> = (0..n_bands).map(|k| x[k * 2 + 1]).collect();
    let dt = 1.0 / weights.rk4_n_steps as f32;
    for _ in 0..weights.rk4_n_steps {
        let (dr, ds) = deriv(&r, &s, &gamma, &weights.omega, weights.alpha, weights.beta);
        let r2: Vec<f32> = r.iter().zip(&dr).map(|(&a, &b)| a + 0.5 * dt * b).collect();
        let s2: Vec<f32> = s.iter().zip(&ds).map(|(&a, &b)| a + 0.5 * dt * b).collect();
        let (k2r, k2s) = deriv(&r2, &s2, &gamma, &weights.omega, weights.alpha, weights.beta);
        let r3: Vec<f32> = r.iter().zip(&k2r).map(|(&a, &b)| a + 0.5 * dt * b).collect();
        let s3: Vec<f32> = s.iter().zip(&k2s).map(|(&a, &b)| a + 0.5 * dt * b).collect();
        let (k3r, k3s) = deriv(&r3, &s3, &gamma, &weights.omega, weights.alpha, weights.beta);
        let r4: Vec<f32> = r.iter().zip(&k3r).map(|(&a, &b)| a + dt * b).collect();
        let s4: Vec<f32> = s.iter().zip(&k3s).map(|(&a, &b)| a + dt * b).collect();
        let (k4r, k4s) = deriv(&r4, &s4, &gamma, &weights.omega, weights.alpha, weights.beta);
        r = (0..n_bands)
            .map(|i| r[i] + dt / 6.0 * (dr[i] + 2.0 * k2r[i] + 2.0 * k3r[i] + k4r[i]))
            .collect();
        s = (0..n_bands)
            .map(|i| s[i] + dt / 6.0 * (ds[i] + 2.0 * k2s[i] + 2.0 * k3s[i] + k4s[i]))
            .collect();
    }

    for k in 0..n_bands {
        assert!(
            (out_cached[k * 2] - r[k]).abs() < 1e-6,
            "r[{}] mismatch: {} vs {}",
            k,
            out_cached[k * 2],
            r[k]
        );
        assert!((out_cached[k * 2 + 1] - s[k]).abs() < 1e-6, "s[{}] mismatch", k);
    }
}

#[test]
fn test_backward_finite_differences() {
    let n_bands = 8;
    let weights = make_test_weights(n_bands);
    let x: Vec<f32> = (0..n_bands * 2).map(|i| (i as f32 * 0.1).sin() * 0.5).collect();
    let eps = 1e-3;

    let (_out, cache) = ode_forward_with_cache(&F32, &x, &weights);
    let d_output: Vec<f32> = vec![1.0f32; n_bands * 2];
    let (d_input, param_grads) = ode_backward(&F32, &d_output, &cache, &weights);

    let sum_diff = |a: &[f32], b: &[f32]| -> f32 {
        a.iter().zip(b).map(|(a, b)| a - b).sum::<f32>() / (2.0 * eps)
    };
    let rel = |an: f32, fd: f32| -> f32 {
        if fd.abs() > 1e-6 {
            (an - fd).abs() / fd.abs()
        } else {
            (an - fd).abs()
        }
    };

    for i in 0..n_bands * 2 {
        let mut x_plus = x.clone();
        let mut x_minus = x.clone();
        x_plus[i] += eps;
        x_minus[i] -= eps;
        let (out_plus, _) = ode_forward_with_cache(&F32, &x_plus, &weights);
        let (out_minus, _) = ode_forward_with_cache(&F32, &x_minus, &weights);
        let fd = sum_diff(&out_plus, &out_minus);
        let rel_err = rel(d_input[i], fd);
        assert!(
            rel_err < 0.05,
            "d_input[{}]: analytical={:.6}, fd={:.6}, rel_err={:.4}",
            i,
            d_input[i],
            fd,
            rel_err
        );
    }
    {
        let mut w_plus = make_test_weights(n_bands);
        let mut w_minus = make_test_weights(n_bands);
        w_plus.alpha += eps;
        w_minus.alpha -= eps;
        let (out_plus, _) = ode_forward_with_cache(&F32, &x, &w_plus);
        let (out_minus, _) = ode_forward_with_cache(&F32, &x, &w_minus);
        let fd = sum_diff(&out_plus, &out_minus);
        let rel_err = rel(param_grads.d_alpha, fd);
        assert!(
            rel_err < 0.05,
            "d_alpha: analytical={:.6}, fd={:.6}, rel_err={:.4}",
            param_grads.d_alpha,
            fd,
            rel_err
        );
    }
    {
        let mut w_plus = make_test_weights(n_bands);
        let mut w_minus = make_test_weights(n_bands);
        w_plus.beta += eps;
        w_minus.beta -= eps;
        let (out_plus, _) = ode_forward_with_cache(&F32, &x, &w_plus);
        let (out_minus, _) = ode_forward_with_cache(&F32, &x, &w_minus);
        let fd = sum_diff(&out_plus, &out_minus);
        let rel_err = rel(param_grads.d_beta, fd);
        assert!(
            rel_err < 0.05,
            "d_beta: analytical={:.6}, fd={:.6}, rel_err={:.4}",
            param_grads.d_beta,
            fd,
            rel_err
        );
    }
    {
        let mut w_plus = make_test_weights(n_bands);
        let mut w_minus = make_test_weights(n_bands);
        w_plus.gamma_raw[0] += eps;
        w_minus.gamma_raw[0] -= eps;
        let (out_plus, _) = ode_forward_with_cache(&F32, &x, &w_plus);
        let (out_minus, _) = ode_forward_with_cache(&F32, &x, &w_minus);
        let fd = sum_diff(&out_plus, &out_minus);
        let rel_err = rel(param_grads.d_gamma_raw[0], fd);
        assert!(
            rel_err < 0.05,
            "d_gamma_raw[0]: analytical={:.6}, fd={:.6}, rel_err={:.4}",
            param_grads.d_gamma_raw[0],
            fd,
            rel_err
        );
    }
}

/// Turning and mixing keep the energy of the bands; damping takes it away.
#[test]
fn energy_is_lost_to_damping_alone() {
    let r = [0.5f64, -0.25, 0.75, 0.125, -0.5, 0.375];
    let s = [0.25f64, 0.5, -0.125, 0.625, 0.25, -0.75];
    let gamma = [0.1f64, 0.2, 0.3, 0.15, 0.05, 0.25];
    let omega = [1.0f64, 2.0, 3.0, 4.0, 5.0, 6.0];
    let mut damped = 0.0;
    for k in 0..6 {
        damped += gamma[k] * (r[k] * r[k] + s[k] * s[k]);
    }
    for chi in [0.0, 0.7] {
        let (dr, ds) = kerr_derivative(&F64, &r, &s, &gamma, &omega, 0.4, 0.3, chi);
        let mut power = 0.0;
        for k in 0..6 {
            power += r[k] * dr[k] + s[k] * ds[k];
        }
        assert!((power + damped).abs() < 1e-12, "{power} against {damped}");
    }
    // Without damping nothing is lost, though the bands do exchange energy.
    let still = [0.0f64; 6];
    let (dr, ds) = kerr_derivative(&F64, &r, &s, &still, &omega, 0.4, 0.3, 0.7);
    let first = r[0] * dr[0] + s[0] * ds[0];
    assert!(first.abs() > 1e-3);
}

/// The gradients that a linear layer passes on amount to what its output's do.
#[test]
fn linear_layers_pass_gradients_on() {
    let w = vec![vec![1.0f64, 2.0], vec![3.0, 4.0], vec![5.0, 6.0]];
    let d = traced(&F64, &[1.0, -1.0, 2.0]);
    let back = transposed_on(&F64, &w, &d, 2);
    assert_eq!(back.v, vec![8.0, 10.0]);
    // Along (1, 2) the outputs change by 5, 11 and 17.
    assert_eq!(linear_fn(&F64, &w, &[0.0, 0.0, 0.0], &[1.0, 2.0]), vec![5.0, 11.0, 17.0]);
    assert_eq!(1.0 * 5.0 - 1.0 * 11.0 + 2.0 * 17.0, 8.0 * 1.0 + 10.0 * 2.0);
}
