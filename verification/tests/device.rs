//! Kernels, device plans, timers and monitors.

use wave_engine::gpu_ode::{kerr_ode_gpu, GpuOdeParams};
use wave_engine::arith::Arith;
use wave_engine::ffn::FfnCache;
use wave_engine::gpu::{
    backend_kernels, buffer_bytes, check_device_index, ffn_chain, fused_fits, median,
    out_proj_buffer_lens, persistent_kernels, scratch_lens, workgroups, Access, Kernel, Uniform,
};
use wave_engine::kerr::kerr_derivative;
use wave_engine::layers::{layer_norm, linear_fn};
use wave_engine::monitor::PipelineMonitor;
use wave_engine::ode::{distortion_bands, neighbours, quartets};
use wave_engine::ode_distortion::{
    count_over, measure_distortion, member, settle, to_json, DistortionTexts,
};
use wave_engine::ode_monitor::{
    analyze_ode_dynamics, compute, divergence, dynamics_to_json, extract_ode_data, layer_dynamics,
    throughput_to_json, to_band_states, DynamicsTexts,
};
use wave_engine::tables::rotation_tables;
use wave_engine::validation::{
    validate_fused, validate_kerr_ode, validate_layer_norm, validate_linear,
    validate_linear_no_bias,
};
use wave_engine::weights::KerrWeights;

/// Single precision.
struct F32;

impl Arith<f32> for F32 {
    fn ratio(&self, num: u64, den: u64) -> f32 {
        (num as f64 / den as f64) as f32
    }
    fn count(&self, n: usize) -> f32 {
        n as f32
    }
    fn lowest(&self) -> f32 {
        f32::NEG_INFINITY
    }
    fn plus(&self, a: f32, b: f32) -> f32 {
        a + b
    }
    fn minus(&self, a: f32, b: f32) -> f32 {
        a - b
    }
    fn times(&self, a: f32, b: f32) -> f32 {
        a * b
    }
    fn over(&self, a: f32, b: f32) -> f32 {
        a / b
    }
    fn larger(&self, a: f32, b: f32) -> f32 {
        a.max(b)
    }
    fn negated(&self, a: f32) -> f32 {
        -a
    }
    fn exp(&self, a: f32) -> f32 {
        a.exp()
    }
    fn ln(&self, a: f32) -> f32 {
        a.ln()
    }
    fn root(&self, a: f32) -> f32 {
        a.sqrt()
    }
    fn tanh(&self, a: f32) -> f32 {
        a.tanh()
    }
    fn sin(&self, a: f32) -> f32 {
        a.sin()
    }
    fn cos(&self, a: f32) -> f32 {
        a.cos()
    }
    fn abs(&self, a: f32) -> f32 {
        a.abs()
    }
    fn ceiling(&self, a: f32) -> f32 {
        a.ceil()
    }
    fn angle(&self, y: f32, x: f32) -> f32 {
        y.atan2(x)
    }
    fn rest(&self, a: f32, b: f32) -> f32 {
        a.rem_euclid(b)
    }
    fn raised(&self, a: f32, b: f32) -> f32 {
        a.powf(b)
    }
    fn power(&self, a: f32, n: usize) -> f32 {
        a.powi(n as i32)
    }
    fn pi(&self) -> f32 {
        std::f32::consts::PI
    }
    fn exceeds(&self, a: f32, b: f32) -> bool {
        a > b
    }
    fn at_most(&self, a: f32, b: f32) -> bool {
        a <= b
    }
    fn equals(&self, a: f32, b: f32) -> bool {
        a == b
    }
    fn whole(&self, a: f32) -> usize {
        a as usize
    }
}

fn close(a: f32, b: f32) -> bool {
    (a - b).abs() < 1e-5
}

#[test]
fn kernels_have_shaders_and_layouts() {
    let all = backend_kernels();
    assert_eq!(all.len(), 21);
    assert_eq!(persistent_kernels().len(), 5);
    for k in &all {
        let b = k.bindings();
        assert!(b.len() <= 13);
        assert_eq!(b.iter().filter(|a| **a == Access::Uniform).count(), 1);
        assert!(k.shader().ends_with(".wgsl"));
    }
    assert_eq!(Kernel::KerrDeriv.name(), "kerr_deriv");
    assert_eq!(Kernel::KerrDeriv.entry(), "kerr_derivative");
    assert_eq!(Kernel::FftConvolve.module(), "fft_512");
    assert_eq!(Kernel::Matvec.shader(), "matvec_tiled.wgsl");
    assert_eq!(Kernel::RowMatvec.shader(), "matvec.wgsl");
    assert_eq!(
        Kernel::KerrRk4.bindings(),
        vec![Access::Write, Access::Write, Access::Read, Access::Read, Access::Uniform]
    );
    assert_eq!(Kernel::KerrBwdBatch.bindings().len(), 13);
}

#[test]
fn uniforms_are_four_words() {
    let u = Uniform::Matvec { out_dim: 16, in_dim: 128, use_bias: true };
    assert_eq!(u.words(), [16, 128, 1, 0]);
    let mut expected = Vec::new();
    for w in [16u32, 128, 1, 0] {
        expected.extend_from_slice(&w.to_ne_bytes());
    }
    assert_eq!(u.bytes(), expected);
    assert_eq!(Uniform::MatvecBwdBatch { out_dim: 1, in_dim: 2, n_pos: 3 }.words(), [1, 2, 3, 0]);
    let k = Uniform::KerrRk4 { n_bands: 84, dt: 7, alpha: 8, beta: 9 };
    assert_eq!(k.words(), [84, 7, 8, 9]);
}

#[test]
fn buffers_are_sized() {
    assert_eq!(buffer_bytes(10), 40);
    assert_eq!((workgroups(1), workgroups(64), workgroups(65)), (1, 1, 2));
    let lens = scratch_lens(2, 8, 3);
    assert_eq!(lens.len(), 27);
    assert_eq!((lens[0], lens[1], lens[5]), (16, 6, 8));
    assert!(out_proj_buffer_lens(4, 8).contains(&32));
    assert!(fused_fits(256) && !fused_fits(257));
    let chain = ffn_chain();
    assert_eq!(chain.len(), 5);
    for i in 1..chain.len() {
        assert_eq!(chain[i].input, chain[i - 1].output);
        assert_ne!(chain[i].input, chain[i].output);
    }
    assert_eq!(check_device_index(1, 2), Ok(1));
    assert_eq!(
        check_device_index(2, 2),
        Err("GPU device index 2 out of range (2 adapters available)".to_string())
    );
    assert_eq!(median(&[5, 1, 9]), 5);
    assert_eq!(median(&[4, 2, 8, 6]), 6);
}

#[test]
fn timers_add_up() {
    let mut m = PipelineMonitor::new(true);
    m.record_nanos("forward", 5);
    m.record_nanos("backward", 20);
    m.record_nanos("forward", 7);
    m.gpu_dispatch();
    let rows = m.report_rows().unwrap();
    assert_eq!(rows.len(), 2);
    assert_eq!((rows[0].name, rows[0].nanos, rows[0].count), ("backward", 20, 1));
    assert_eq!((rows[1].name, rows[1].nanos, rows[1].count), ("forward", 12, 2));
    assert_eq!(m.dispatches(), 1);
    m.reset();
    assert_eq!(m.report_rows().unwrap().len(), 0);
    assert!(m.enabled());
}

#[test]
fn clocks_run_forwards() {
    let mut m = PipelineMonitor::new(true);
    let t = m.start();
    let mut x = 0u64;
    for i in 0..200000u64 {
        x = x.wrapping_mul(31).wrapping_add(i);
    }
    m.record("busy", t);
    let rows = m.report_rows().unwrap();
    assert!(x != 1);
    assert_eq!(rows[0].count, 1);
    assert!(rows[0].nanos > 0);
    let outer = m.start();
    m.record("first", outer);
    m.record("second", outer);
    let by = |n: &str| m.report_rows().unwrap().iter().find(|r| r.name == n).unwrap().nanos;
    assert!(by("second") >= by("first"));
}

#[test]
fn disabled_monitors_record_nothing() {
    let mut m = PipelineMonitor::new(false);
    let t = m.start();
    m.record("a", t);
    m.record_nanos("a", 3);
    m.gpu_dispatch();
    assert!(m.report_rows().is_none());
    assert_eq!(m.dispatches(), 0);
}

#[test]
fn bands_that_meet() {
    assert_eq!(neighbours(0, 5), vec![1, 2]);
    assert_eq!(neighbours(2, 5), vec![0, 1, 3, 4]);
    for k in 0..5 {
        for j in neighbours(k, 5) {
            assert!(neighbours(j, 5).contains(&k));
        }
    }
    for q in quartets(6) {
        assert_eq!(q.a + q.b, q.c + q.d);
    }
    assert!(!distortion_bands(1, 8).contains(&1));
}

#[test]
fn distortion_is_measured() {
    let x = [1.0, 0.0, 0.0, 0.0, 0.0, 0.0, 0.0, 0.0];
    let d = measure_distortion(&F32, &x, &x, &[0.0; 4], 4, 10).unwrap();
    // A wave that comes out as it went in gains nothing and turns nowhere.
    assert!(close(d.gain_max, 1.0) && close(d.excess_phase_max, 0.0));
    assert_eq!((d.n_phase_distorted, d.n_thd_over_10pct), (0, 0));
    assert_eq!(settle(&F32, 0.5, 3), Some(0.5));
    assert!(close(settle(&F32, 7.0, 3).unwrap(), 7.0 - 2.0 * std::f32::consts::PI));
    assert_eq!(settle(&F32, 700.0, 3), None);
    assert_eq!(count_over(&F32, 1.0, &vec![0.5, 1.0, 1.5]), 1);
    let t = DistortionTexts {
        thd: "1".to_string(),
        thd_max_val: "2".to_string(),
        gain_mean: "3".to_string(),
        gain_max: "4".to_string(),
        excess_phase: "5".to_string(),
        intermod: "6".to_string(),
    };
    let line = to_json(&d, &t);
    assert!(line.contains(&member("thd", "1")));
    assert!(line.contains("3") && line.contains("6"));
}

#[test]
fn dynamics_are_measured() {
    let s = layer_dynamics(&F32, 2, &[1.0, 0.0, 2.0, 0.0], &[0.0, 1.0, 1.0, 0.0], 2);
    assert_eq!(s.layer, 2);
    assert!(close(s.energy_in, 5.0) && close(s.energy_out, 2.0));
    assert!(close(s.energy_ratio, 0.4));
    assert!(close(s.phase_velocity, std::f32::consts::FRAC_PI_4));
    let cache = |p: Vec<f32>, k: Vec<f32>| FfnCache {
        input: vec![],
        mae_in_sq: vec![],
        mae_in_act: vec![],
        precond: vec![p],
        kerr_out: vec![k],
        mae_out_sq: vec![],
        mae_out_act: vec![],
        regulated: vec![],
    };
    let caches = vec![None, Some(cache(vec![1.0, 0.0], vec![0.0, 2.0]))];
    let stats = analyze_ode_dynamics(&F32, &caches, 1);
    assert_eq!(stats.len(), 1);
    assert_eq!(stats[0].layer, 1);
    assert!(close(stats[0].energy_ratio, 4.0));
    let shots = extract_ode_data(&F32, &caches, 1, 0);
    assert_eq!((shots.len(), shots[0].layer, shots[0].position), (1, 1, 0));
    assert!(close(shots[0].kerr_out[0].mag, 2.0));
    assert!(close(shots[0].kerr_out[0].phase, std::f32::consts::FRAC_PI_2));
    let d = DynamicsTexts {
        layer: 1,
        phase_vel: "a".to_string(),
        energy_in: "b".to_string(),
        energy_out: "c".to_string(),
        energy_ratio: "d".to_string(),
        band_std: "e".to_string(),
        damping: "f".to_string(),
    };
    assert!(dynamics_to_json(&vec![d]).contains("\"layer\":1"));
    assert_eq!(dynamics_to_json(&vec![]), "");
}

#[test]
fn states_diverge() {
    let a = to_band_states(&F32, &[1.0, 0.0, 1.0, 0.0], 2);
    let b = to_band_states(&F32, &[1.0, 0.0, 0.0, 1.0], 2);
    let d = divergence(&F32, &a, &b, 2);
    assert!(close(d.by[0], 0.0) && close(d.by[1], -std::f32::consts::FRAC_PI_2));
    assert_eq!(d.order[0].0, 1);
    assert!(close(d.mean, std::f32::consts::FRAC_PI_4));
}

#[test]
fn throughput() {
    let s = compute(&F32, 2, 50, 500.0, 300.0, 100.0);
    assert!(close(s.tokens_per_sec, 200.0) && close(s.iters_per_sec, 2.0));
    assert_eq!((s.forward_ms, s.backward_ms, s.optimizer_ms), (300.0, 100.0, 100.0));
    assert_eq!(compute(&F32, 2, 50, 0.0, 3.0, 1.0).iters_per_sec, 0.0);
    assert!(throughput_to_json("1", "2", "3", "4", "5").contains("\"tok_s\":1"));
}

/// Integrates the ODE step by step.
fn integrate(w: &KerrWeights<f32>, x: &Vec<f32>) -> Vec<f32> {
    let n = w.gamma_raw.len();
    let gamma: Vec<f32> = w.gamma_raw.iter().map(|g| (1.0 + g.exp()).ln()).collect();
    let dt = 1.0 / w.rk4_n_steps as f32;
    let mut z: Vec<f32> = x.clone();
    let slope = |z: &Vec<f32>| {
        let r: Vec<f32> = (0..n).map(|k| z[2 * k]).collect();
        let s: Vec<f32> = (0..n).map(|k| z[2 * k + 1]).collect();
        let (dr, ds) = kerr_derivative(&F32, &r, &s, &gamma, &w.omega, w.alpha, w.beta, 0.0);
        (0..2 * n).map(|i| if i % 2 == 0 { dr[i / 2] } else { ds[i / 2] }).collect::<Vec<f32>>()
    };
    let along = |z: &Vec<f32>, k: &Vec<f32>, h: f32| {
        z.iter().zip(k).map(|(a, b)| a + h * b).collect::<Vec<f32>>()
    };
    for _ in 0..w.rk4_n_steps {
        let k1 = slope(&z);
        let k2 = slope(&along(&z, &k1, 0.5 * dt));
        let k3 = slope(&along(&z, &k2, 0.5 * dt));
        let k4 = slope(&along(&z, &k3, dt));
        for i in 0..2 * n {
            z[i] += dt / 6.0 * (k1[i] + 2.0 * k2[i] + 2.0 * k3[i] + k4[i]);
        }
    }
    z
}

#[test]
fn devices_are_held_against_the_processor() {
    let row = validate_linear(&F32, |w: &Vec<Vec<f32>>, b: &Vec<f32>, x: &Vec<f32>| {
        linear_fn(&F32, w, b, x)
    });
    assert_eq!((row.name, row.max_diff, row.passed), ("linear (128→128, bias)", 0.0, true));
    let off = validate_linear(&F32, |w: &Vec<Vec<f32>>, b: &Vec<f32>, x: &Vec<f32>| {
        let mut y = linear_fn(&F32, w, b, x);
        y[7] += 0.25;
        y
    });
    assert!(close(off.max_diff, 0.25) && !off.passed);
    let plain = validate_linear_no_bias(&F32, |w: &Vec<Vec<f32>>, x: &Vec<f32>| {
        assert_eq!((w.len(), x[1]), (384, 0.03f32.cos()));
        linear_fn(&F32, w, &vec![0.0; 384], x)
    });
    assert!(plain.passed);
    let norm = validate_layer_norm(&F32, |x: &Vec<f32>, w: &Vec<f32>, b: &Vec<f32>| {
        assert!(close(w[0], 1.1) && close(x[1], 2.0 * 0.05f32.sin()));
        layer_norm(&F32, x, w, b)
    });
    assert!(norm.passed);
    let ode = validate_kerr_ode(&F32, |w: &KerrWeights<f32>, x: &Vec<f32>| {
        assert_eq!((w.rk4_n_steps, x.len()), (8, 128));
        integrate(w, x)
    });
    assert!(ode.passed);
    let (large, small) = validate_fused(&F32, |w: &KerrWeights<f32>, xs: &Vec<Vec<f32>>| {
        xs.iter().map(|x| integrate(w, x)).collect::<Vec<Vec<f32>>>()
    });
    assert!(large.passed && small.passed);
    let (bad, _) = validate_fused(&F32, |_w: &KerrWeights<f32>, xs: &Vec<Vec<f32>>| xs.clone());
    assert!(!bad.passed);
}

#[test]
fn rotations_are_tabulated() {
    let (decay, cos, sin) = rotation_tables(&F32, &[0.0], &[0.5]);
    assert!(close(decay[0], 0.5) && close(cos[0], 0.5f32.cos()) && close(sin[0], 0.5f32.sin()));
}

#[test]
fn bands_are_turned_by_their_energies() {
    let p = GpuOdeParams {
        decay: vec![0.5, 1.0],
        cos_w: vec![0.0, 1.0],
        sin_w: vec![1.0, 0.0],
        alpha: 2.0,
        beta: 1.0,
        n_bands: 2,
    };
    let x: Vec<Vec<f32>> = vec![vec![1.0, 2.0, 3.0, 4.0], vec![0.0; 4]];
    let out = kerr_ode_gpu(&F32, &x, &p).unwrap();
    assert_eq!(out[0], vec![-14.75, -27.0, -202.0, 157.75]);
    assert_eq!(out[1], vec![0.0; 4]);
    assert!(kerr_ode_gpu(&F32, &vec![vec![1.0, 2.0]], &p).is_none());
    assert!(kerr_ode_gpu(&F32, &vec![vec![1.0; 5]], &p).is_none());
    assert_eq!(kerr_ode_gpu(&F32, &vec![], &p).unwrap().len(), 0);
}

#[test]
fn steps_need_a_frequency_for_each_band() {
    assert!(GpuOdeParams::new(&F32, &[0.0f32, 1.0], &[0.5], 0.1, 0.2).is_none());
    let p = GpuOdeParams::new(&F32, &[25.0f32, 0.0], &[0.0, 0.5], 0.1, 0.2).unwrap();
    assert_eq!((p.n_bands, p.alpha, p.beta), (2, 0.1, 0.2));
    // Softplus of zero is the logarithm of two, so half of the wave is left.
    assert!((p.decay[1] - 0.5).abs() < 1e-6);
    assert_eq!(p.decay[0], (-25.0f32).exp());
    assert_eq!((p.cos_w[0], p.sin_w[0]), (1.0, 0.0));
}
