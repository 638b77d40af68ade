//! Training: rates, steps, springs and fresh models.

use wave_engine::arith::Arith;
use wave_engine::config::{Dims, ModelConfig};
use wave_engine::curriculum::{BandMask, CurriculumSchedule};
use wave_engine::estimates::{
    band_utilisation, bands_wanted, estimate_time_per_iter_ms, first10_health_check, format_time,
    gradient_verdict, mask_values, max_diff, pos_per_head, tokens_per_dim, worst_of, TimeUnit,
};
use wave_engine::gradients::{flatten_grads_ex, zero_gradients};
use wave_engine::model;
use wave_engine::model::{init_model_ext, FfnWeights};
use wave_engine::optimizer::{clip_grad_norm, Adam};
use wave_engine::param_groups::{
    boost_start, group_layout, lm_start, telemetry_layer_range, GroupLayout, ParamGroup,
};
use wave_engine::regulation::{apply_lr_scale, apply_per_group_wd, apply_springs, SpringConfig};
use wave_engine::run_setup::{
    corrector_stats, decomposition_line, effective_chi, enable_mixing, least_bands,
    tokens_per_band, DecompositionTexts,
};
use wave_engine::recommend::analyze_data;
use wave_engine::sizing::{estimates_fit, recommend};
use wave_engine::sections::{build_section_labels, ExtraSections};
use wave_engine::tables::{
    build_harmonic_table, build_harmonic_table_sized, build_positional_table, default_init_values,
    draw_limit,
};
use wave_engine::ode_monitor::BandState;
use wave_engine::phase_report::{BandDelta, BandInfo};
use wave_engine::readings::{
    average, census_percents, clusters_across, encoding_drifts, final_average, gradient_norm,
    gradient_report, is_concentrated, is_share, magnitude_sums, mean_damping, per_iteration,
    rolling_averages, strong_drifts, turned_bands,
};
use wave_engine::train::{apply_fixed, lr_phase, DynParam, LrPhase};
use wave_engine::training_step::{
    average_loss, embedding_separation, gain_ceiling, head_boost, learning_rate, lift_head,
    mean_cosine, ode_stability, optimise, parameter_balance, reduce_batch, stalled, train_split,
    train_step, Balance, GroupModes, Separation,
};
use wave_engine::wave_init::{draw_runs, init_model};
use wave_engine::wave_model::{
    count_trainable, count_trainable_ex, flatten_params, flatten_params_ex, unflatten_params,
    unflatten_params_ex, WavePacketModel,
};
use wave_engine::weights::OutProjWeights;

/// Single precision.
struct F32;

impl Arith<f32> for F32 {
    fn ratio(&self, num: u64, den: u64) -> f32 {
        (num as f64 / den as f64) as f32
    }
    fn count(&self, n: usize) -> f32 {
        n as f32
    }
    fn lowest(&self) -> f32 {
        f32::NEG_INFINITY
    }
    fn plus(&self, a: f32, b: f32) -> f32 {
        a + b
    }
    fn minus(&self, a: f32, b: f32) -> f32 {
        a - b
    }
    fn times(&self, a: f32, b: f32) -> f32 {
        a * b
    }
    fn over(&self, a: f32, b: f32) -> f32 {
        a / b
    }
    fn larger(&self, a: f32, b: f32) -> f32 {
        a.max(b)
    }
    fn negated(&self, a: f32) -> f32 {
        -a
    }
    fn exp(&self, a: f32) -> f32 {
        a.exp()
    }
    fn ln(&self, a: f32) -> f32 {
        a.ln()
    }
    fn root(&self, a: f32) -> f32 {
        a.sqrt()
    }
    fn tanh(&self, a: f32) -> f32 {
        a.tanh()
    }
    fn sin(&self, a: f32) -> f32 {
        a.sin()
    }
    fn cos(&self, a: f32) -> f32 {
        a.cos()
    }
    fn abs(&self, a: f32) -> f32 {
        a.abs()
    }
    fn ceiling(&self, a: f32) -> f32 {
        a.ceil()
    }
    fn angle(&self, y: f32, x: f32) -> f32 {
        y.atan2(x)
    }
    fn rest(&self, a: f32, b: f32) -> f32 {
        a.rem_euclid(b)
    }
    fn raised(&self, a: f32, b: f32) -> f32 {
        a.powf(b)
    }
    fn power(&self, a: f32, n: usize) -> f32 {
        a.powi(n as i32)
    }
    fn pi(&self) -> f32 {
        std::f32::consts::PI
    }
    fn exceeds(&self, a: f32, b: f32) -> bool {
        a > b
    }
    fn at_most(&self, a: f32, b: f32) -> bool {
        a <= b
    }
    fn equals(&self, a: f32, b: f32) -> bool {
        a == b
    }
    fn whole(&self, a: f32) -> usize {
        a as usize
    }
}

fn close(a: f32, b: f32) -> bool {
    (a - b).abs() < 1e-5
}

fn dims() -> Dims {
    Dims {
        n_bands: 2,
        n_head: 2,
        n_embd: 4,
        maestro_dim: 3,
        block_size: 4,
        rk4_steps: 2,
        m1: 3,
        m2: 5,
        pythagorean: false,
        lm_rank: 0,
        tied: false,
        wave_decode: false,
        unfreeze_phases: false,
        learnable_ode: true,
        use_layer_scale: true,
        use_lr_scale: true,
    }
}

fn fresh(d: &Dims, groups: usize) -> WavePacketModel<f32> {
    let n: usize = draw_runs(d, groups, 2, 3).iter().map(|r| r.count).sum();
    let draws: Vec<f32> = (0..n).map(|i| (i + 1) as f32).collect();
    let wte = vec![vec![1.0, 0.0, 0.0, 1.0], vec![0.0, 1.0, 1.0, 0.0], vec![0.5; 4]];
    init_model(&F32, 3, 2, groups, d, 0.1, 0.2, &draws, wte, vec![vec![0.0; 4]; 4])
}

#[test]
fn fresh_models_use_up_their_draws() {
    let m = fresh(&dims(), 1);
    assert_eq!(m.blocks.len(), 2);
    let b = &m.blocks[0];
    assert_eq!(b.attn.heads.len(), 2);
    assert_eq!(b.attn.heads[0].phase_proj_w[0][0], 1.0);
    assert_eq!(b.attn.heads[0].v_proj_w[0][0], 9.0);
    assert_eq!(b.attn.heads[1].phase_proj_w[0][0], 13.0);
    assert!(close(b.attn.heads[0].harmonic_raw, 0.5f32.ln()));
    assert!(close(b.attn.heads[1].harmonic_raw, 0.0));
    assert_eq!(b.ln.weight, vec![1.0; 4]);
    assert_eq!(b.ffn.kerr.omega, vec![0.5, 1.0]);
    assert!(close((1.0 + b.ffn.kerr.gamma_raw[0].exp()).ln(), 0.1));
    assert_eq!((b.ffn.kerr.alpha, b.ffn.kerr.beta), (0.1, 0.2));
    assert_eq!(b.ffn.kerr.rk4_weights[1], 1.0 / 3.0);
    assert_eq!(m.lm_head.len(), 3);
    assert_eq!(m.layer_scale, vec![1.0; 2]);
    assert_eq!(m.lr_scale, vec![1.0; 3]);
    assert!(!m.phase_native && m.wd_state.is_none());
    let last: usize = draw_runs(&dims(), 1, 2, 3).iter().map(|r| r.count).sum();
    assert_eq!(m.lm_head[2][3], last as f32);
}

#[test]
fn fresh_models_come_in_kinds() {
    let mut d = dims();
    d.lm_rank = 2;
    let low = fresh(&d, 2);
    assert!(low.lm_head.is_empty());
    assert_eq!((low.lm_down.len(), low.lm_up.len()), (2, 3));
    match &low.blocks[1].ffn.out_proj {
        OutProjWeights::BlockDiagonal(b) => {
            assert_eq!((b.n_groups, b.group_size, b.groups.len()), (2, 2, 2));
        }
        OutProjWeights::Dense(_) => panic!("dense"),
    }
    let mut t = dims();
    t.tied = true;
    t.wave_decode = true;
    let tied = fresh(&t, 1);
    assert_eq!(tied.lm_head, tied.wte);
    let wd = tied.wd_state.as_ref().unwrap();
    assert!(wd.ref_phases.is_none());
    assert_eq!(wd.temperature, 0.02);
    t.unfreeze_phases = true;
    let open = fresh(&t, 1);
    let phases = open.wd_state.as_ref().unwrap().ref_phases.as_ref().unwrap();
    assert!(close(phases[0][1], std::f32::consts::FRAC_PI_2));
}

#[test]
fn the_reference_model_uses_up_its_draws() {
    let config = ModelConfig {
        n_bands: 2,
        n_head: 2,
        n_layers: 2,
        maestro_dim: 1,
        block_size: 3,
        rk4_n_steps: 2,
    };
    assert!(config.is_valid());
    let runs = model::draw_runs(&config, true, 5);
    let n: usize = runs.iter().map(|r| r.count).sum();
    let draws: Vec<f32> = (0..n).map(|i| i as f32).collect();
    let v = default_init_values(&F32, 2);
    let m = init_model_ext(
        5,
        config,
        true,
        &draws,
        &v,
        build_harmonic_table_sized(&F32, 5, 4),
        build_positional_table(&F32, 3, 4),
    );
    assert!(matches!(m.blocks[0].ffn, FfnWeights::PerBand(_)));
    assert!(matches!(m.blocks[1].ffn, FfnWeights::KerrDualMaestro(_)));
    assert_eq!(m.blocks[0].attn.c_attn.w[0][0], 0.0);
    assert_eq!(m.lm_head[4][3], (n - 1) as f32);
    assert_eq!(runs[0].fan_in, 4);
    assert_eq!(draw_limit(&F32, 4), 0.5);
}

#[test]
fn tables_are_waves() {
    let t = build_harmonic_table_sized(&F32, 4, 4);
    let s = 1.0 / 2.0f32.sqrt();
    assert!(close(t[0][0], s) && close(t[0][1], 0.0));
    // Token 1 of four stands a quarter turn on; its second harmonic a half turn.
    assert!(close(t[1][0], 0.0) && close(t[1][1], s));
    assert!(close(t[1][2], -s));
    assert_eq!(build_harmonic_table(&F32, 2)[1].len(), 128);
    let p = build_positional_table(&F32, 2, 4);
    assert!(close(p[0][0], s) && close(p[0][1], 0.0));
    assert!(close(p[1][1], 1.0f32.sin() * s));
    assert!(close(p[1][3], 0.01f32.sin() * s));
}

/// Where the couplings of the first block stand in the flat parameters, and where the layer
/// scales start.
fn couplings_at(m: &WavePacketModel<f32>, total: usize, decoder: usize) -> (usize, usize) {
    let scales = total - decoder - 2 * m.ln_f.weight.len() - m.layer_scale.len();
    let block = scales / m.blocks.len();
    (block - m.blocks[0].ffn.kerr.phase_correction.len() - 2, scales)
}

#[test]
fn parameters_come_back() {
    let mut m = fresh(&dims(), 1);
    let flat = flatten_params(&m);
    assert_eq!(flat.len(), count_trainable(&m));
    unflatten_params(&F32, &mut m, &flat);
    assert_eq!(flatten_params(&m), flat);
    // Couplings are kept within their bounds, all else comes back as it was.
    let changed: Vec<f32> = flat.iter().map(|x| x + 1.0).collect();
    unflatten_params(&F32, &mut m, &changed);
    let (alpha, scales) = couplings_at(&m, flat.len(), 3 * 4);
    let block = scales / 2;
    let mut expected = changed.clone();
    for b in 0..2 {
        expected[b * block + alpha] = 0.5;
        expected[b * block + alpha + 1] = 1.0;
    }
    assert_eq!(flatten_params(&m), expected);
    assert_eq!((m.blocks[1].ffn.kerr.alpha, m.blocks[1].ffn.kerr.beta), (0.5, 1.0));
    // Negative layer scales are lifted to zero, and low couplings to a hundredth.
    let mut low = changed.clone();
    low[alpha] = -3.0;
    low[alpha + 1] = 0.001;
    low[scales] = -2.0;
    low[scales + 1] = 0.25;
    unflatten_params(&F32, &mut m, &low);
    assert_eq!((m.blocks[0].ffn.kerr.alpha, m.blocks[0].ffn.kerr.beta), (0.01, 0.01));
    assert_eq!(m.layer_scale, vec![0.0, 0.25]);
    // A tied head has a temperature in the place of its table.
    let tied = flatten_params_ex(&m, true);
    assert_eq!(tied.len(), count_trainable_ex(&m, true));
    let mut again = tied.clone();
    *again.last_mut().unwrap() = 7.5;
    unflatten_params_ex(&F32, &mut m, &again, true);
    assert_eq!(flatten_params_ex(&m, true), again);
    assert_eq!(m.tied_temperature, 7.5);
}

#[test]
fn tables_follow_trained_references() {
    let mut d = dims();
    d.wave_decode = true;
    d.unfreeze_phases = true;
    let mut m = fresh(&d, 1);
    let mut flat = flatten_params(&m);
    let last = flat.len() - 1;
    flat[last] = 0.75;
    unflatten_params(&F32, &mut m, &flat);
    let s = m.wd_state.as_ref().unwrap();
    assert_eq!(s.ref_phases.as_ref().unwrap()[2][1], 0.75);
    assert_eq!((s.token_cos[2][1], s.token_sin[2][1]), (0.75f32.cos(), 0.75f32.sin()));
    // Frozen references keep the tables of the embeddings' phases.
    d.unfreeze_phases = false;
    let m = fresh(&d, 1);
    let s = m.wd_state.as_ref().unwrap();
    assert!(close(s.token_cos[0][0], 1.0) && close(s.token_sin[0][0], 0.0));
    assert!(close(s.token_cos[1][0], 0.0) && close(s.token_sin[1][0], 1.0));
}

#[test]
fn sections_and_groups_mirror_the_layout() {
    let m = fresh(&dims(), 1);
    let n = count_trainable(&m);
    let labels = build_section_labels(
        &m,
        ExtraSections { use_rk4_weights: false, use_dyn_harmonics: false },
    );
    assert_eq!(labels.ranges[0], (0, "block_0_ln_w".to_string()));
    let head = labels.ranges.iter().find(|r| r.1 == "lm_head").unwrap();
    assert_eq!(head.0, n - 12);
    assert_eq!(lm_start(n, 3, 4), n - 12);
    assert_eq!(boost_start(&m, n), n - 12);
    let layout = group_layout(&m, 4, 3, false);
    assert_eq!(layout.group_at(0), ParamGroup::Layer(0));
    assert_eq!(layout.group_at(layout.block_total), ParamGroup::Layer(1));
    let (a, b) = layout.layer_range(1, n);
    assert_eq!(layout.group_at(a), ParamGroup::Layer(1));
    assert_eq!(b - a, layout.block_total);
    assert_eq!(telemetry_layer_range(100, 4, 1), (25, 50));
    let g = zero_gradients(0.0f32, 2, dims(), 3, false);
    assert_eq!(flatten_grads_ex(&g, false).iter().filter(|x| **x != 0.0).count(), 0);
}

#[test]
fn rates_warm_up_and_fall() {
    assert_eq!(lr_phase(0, 200), LrPhase::Warmup { step: 1, of: 100 });
    assert_eq!(lr_phase(150, 200), LrPhase::Cosine { done: 50, span: 100 });
    assert!(close(learning_rate(&F32, 1.0, 0, 200), 0.01));
    assert!(close(learning_rate(&F32, 1.0, 99, 200), 1.0));
    assert!(close(learning_rate(&F32, 1.0, 100, 200), 1.0));
    assert!(close(learning_rate(&F32, 1.0, 150, 200), 0.55));
    assert!(learning_rate(&F32, 1.0, 199, 200) >= 0.1);
    assert_eq!(train_split(&F32, 1000), 900);
}

#[test]
fn batches_are_averaged() {
    let (loss, grads) =
        reduce_batch(&F32, &vec![1.0, 3.0], &vec![vec![1.0, 0.0], vec![3.0, 4.0]], 2, 2);
    assert_eq!(loss, 2.0);
    assert_eq!(grads, vec![2.0, 2.0]);
    assert_eq!(average_loss(&F32, &vec![1.0; 9], 5.0), 5.0);
    assert_eq!(average_loss(&F32, &vec![1.0; 10], 5.0), 1.0);
}

#[test]
fn gradients_are_clipped_and_lifted() {
    let mut g = vec![3.0, 4.0];
    clip_grad_norm(&F32, &mut g, 1.0);
    assert!(close(g[0], 0.6) && close(g[1], 0.8));
    let mut small = vec![0.3, 0.4];
    clip_grad_norm(&F32, &mut small, 1.0);
    assert_eq!(small, vec![0.3, 0.4]);
    assert_eq!(head_boost(&F32, 0.0, 0.1, 1000), None);
    assert_eq!(head_boost(&F32, 0.2, 0.1, 500), None);
    assert_eq!(head_boost(&F32, 0.2, 0.3, 1000), None);
    assert_eq!(head_boost(&F32, 0.2, 0.1, 501), Some(2.0));
    lift_head(&F32, &mut small, 1, 2.0);
    assert_eq!(small, vec![0.3, 0.8]);
}

#[test]
fn adam_moves_by_the_rate() {
    let mut adam = Adam::new(&F32, 0.1, 2);
    let mut p = vec![1.0, -1.0];
    adam.step_wd(&F32, &mut p, &[0.5, -2.0], 0.0);
    // The first step has the size of the rate, whatever the gradient.
    assert!(close(p[0], 0.9) && close(p[1], -0.9));
    let (t, m, v) = adam.checkpoint_state();
    assert_eq!(t, 1);
    assert!(close(m[0], 0.05) && close(v[1], 0.004));
    let again = Adam::from_checkpoint(0.1, t, m.clone(), v.clone());
    let mut a = adam;
    let mut b = again;
    let mut pa = p.clone();
    let mut pb = p.clone();
    a.step(&F32, &mut pa, &[0.1, 0.2]);
    b.step(&F32, &mut pb, &[0.1, 0.2]);
    assert_eq!(pa, pb);
}

#[test]
fn steps_respect_groups() {
    let layout = GroupLayout { n_layers: 1, block_total: 1, head_start: 2 };
    let modes = GroupModes {
        lr_layout: layout,
        wd_layout: layout,
        lr_scale: DynParam::Fixed(vec![]),
        wd: DynParam::Dynamic,
        spring_k: 0.0,
    };
    let mut params = vec![1.0, 1.0, 1.0];
    let mut grads = vec![0.1, 0.1, 0.1];
    let mut adam = Adam::new(&F32, 0.5, 3);
    let mut scales = vec![0.0, 2.0];
    optimise(
        &F32,
        &mut params,
        &mut grads,
        &mut adam,
        &modes,
        &mut scales,
        &vec![10.0, 0.0],
        Some((2, 3.0)),
        0.5,
    );
    // The layer's gradient is switched off, the shared one stays, the head's is lifted and
    // scaled.
    assert_eq!(grads[0], 0.0);
    assert!(close(grads[1], 0.1));
    assert!(close(grads[2], 0.6));
    // The layer decays and does not move, the others move by the rate.
    assert!(close(params[0], 1.0 - 0.5 * 0.1));
    assert!(close(params[1], 0.5) && close(params[2], 0.5));
    assert_eq!(scales, vec![0.0, 2.0]);
}

#[test]
fn group_scales_are_applied() {
    let layout = GroupLayout { n_layers: 1, block_total: 2, head_start: 3 };
    let mut grads = vec![1.0; 4];
    let mut scales = vec![2.0, 0.5];
    apply_lr_scale(&F32, &layout, &DynParam::Off, &mut scales, &mut grads, 0.1, 1.0);
    assert_eq!(grads, vec![1.0; 4]);
    apply_lr_scale(&F32, &layout, &DynParam::Fixed(vec![]), &mut scales, &mut grads, 0.1, 1.0);
    assert_eq!(grads, vec![2.0, 2.0, 1.0, 0.5]);
    let mut params = vec![1.0; 4];
    apply_per_group_wd(&F32, &layout, &DynParam::Dynamic, &vec![1.0, 0.0], &mut params, 1.0);
    assert!(close(params[0], 0.99));
    assert_eq!((params[2], params[3]), (1.0, 1.0));
    let mut target = vec![0.0; 3];
    apply_fixed(&DynParam::Fixed(vec![7.0, 8.0]), &mut target);
    assert_eq!(target, vec![7.0, 8.0, 0.0]);
}

#[test]
fn springs_pull_back() {
    let mut m = fresh(&dims(), 1);
    m.layer_scale = vec![2.0, 1.0];
    let c = SpringConfig {
        layer_scale: true,
        wd: false,
        rk4_weights: false,
        harmonics: false,
        corrector: false,
        agc_headroom: false,
        freeze_ode: true,
        spring_k: 1.0,
        active_layers: None,
        agc_ceiling: None,
    };
    let mut wd: Vec<f32> = vec![1.0];
    let mut agc: Vec<f32> = vec![1.0];
    apply_springs(&F32, &mut m, &mut wd, &mut agc, &c, 0.1, f32::MAX);
    assert!(m.layer_scale[0] < 2.0 && m.layer_scale[0] > 1.0);
    assert!(close(m.layer_scale[1], 1.0));
    assert_eq!((wd[0], agc[0]), (1.0, 1.0));
    // Slack springs look at no heads, and need no blocks.
    let slack = SpringConfig { harmonics: true, spring_k: 0.0, ..c };
    let before = m.blocks[0].attn.heads[0].harmonic_raw;
    m.blocks[1].attn.heads.clear();
    apply_springs(&F32, &mut m, &mut wd, &mut agc, &slack, 0.1, f32::MAX);
    assert_eq!(m.blocks[0].attn.heads[0].harmonic_raw, before);
    m.blocks.clear();
    apply_springs(&F32, &mut m, &mut wd, &mut agc, &slack, 0.1, f32::MAX);
}

#[test]
fn preflight_checks() {
    let (gap, verdict) = embedding_separation(&F32, &vec![vec![1.0, 0.0], vec![0.0, 1.0]]);
    assert_eq!((gap, verdict), (1.0, Separation::Clear));
    assert_eq!(embedding_separation(&F32, &vec![vec![1.0]]).1, Separation::Degenerate);
    assert_eq!(
        embedding_separation(&F32, &vec![vec![1.0], vec![0.95]]).1,
        Separation::Close
    );
    assert_eq!(parameter_balance(&F32, 96, 100).1, Balance::Dominated);
    assert_eq!(parameter_balance(&F32, 92, 100).1, Balance::Heavy);
    assert_eq!(parameter_balance(&F32, 50, 100).1, Balance::Even);
    let (deg, chaotic) = ode_stability(&F32, 0.1, 0.1);
    assert!((deg - 114.59).abs() < 0.01 && chaotic);
    assert!(!ode_stability(&F32, 0.02, 0.02).1);
    let (c, floored) = gain_ceiling(&F32, 100.0, 0.0);
    assert!(c < 0.2 && floored == 0.5);
    assert!(stalled(&F32, 0.99, 1.0, 97));
    assert!(!stalled(&F32, 0.5, 1.0, 97));
    let cos = mean_cosine(&F32, &vec![vec![1.0, 0.0], vec![0.0, 0.0]], &vec![vec![2.0, 0.0], vec![1.0, 1.0]]);
    assert!(close(cos, 0.5));
    assert_eq!(mean_cosine(&F32, &vec![], &vec![]), 0.0);
}

#[test]
fn early_health() {
    let grads = vec![3.0, 4.0, 0.0, 12.0];
    let h = first10_health_check(&F32, 3, &grads, 4, 2, 13.0).unwrap();
    assert!(close(h.model_norm, 5.0) && close(h.head_norm, 12.0));
    assert!(!h.dominated);
    assert!(first10_health_check(&F32, 10, &grads, 4, 2, 13.0).is_none());
    assert!(first10_health_check(&F32, 0, &grads, 4, 9, 13.0).unwrap().dominated);
}

#[test]
fn bands_open_stage_by_stage() {
    for n in [0usize, 1, 4, 7, 8, 40] {
        let s = CurriculumSchedule::default_4stage(n);
        let bands: Vec<usize> = s.stages.iter().map(|x| x.bands).collect();
        assert!(bands.windows(2).all(|w| w[0] <= w[1]));
        assert_eq!(bands[3], n);
    }
    let s = CurriculumSchedule::default_4stage(64);
    let lengths = s.stage_lengths(&F32, 1000);
    assert_eq!(lengths.len(), 4);
    assert_eq!(lengths[1], 250);
    let ends = s.stage_ends(&F32, 1000);
    assert_eq!(ends[3], 1000);
    assert_eq!(s.active_bands(0, &ends), 8);
    assert_eq!(s.active_bands(999, &ends), 64);
    for n_iters in [0usize, 1, 7, 1000, 12345] {
        let ends = s.stage_ends(&F32, n_iters);
        assert!(ends.iter().all(|e| *e <= n_iters));
        assert_eq!(s.active_bands(n_iters, &ends), 64);
    }
    let masks = s.band_masks(100, &lengths, 64);
    assert_eq!(masks[0], BandMask::Ramping(100));
    assert_eq!(masks[8], BandMask::Suppressed);
    let values = mask_values(&F32, &masks);
    assert!(close(values[0], 0.01 + 0.5 * 0.99));
    assert!(close(values[63], 0.01));
    assert_eq!(mask_values(&F32, &s.band_masks(999, &lengths, 64))[8], 1.0);
    let none = CurriculumSchedule::none(4);
    assert_eq!(none.describe(&vec![7]), "  Curriculum: 4 bands (iters 0-7, ramp 200)  ");
}

#[test]
fn estimates() {
    // 65 tokens ask for 65 active bands; 1/9 + 1/11 of them are dead.
    let n = bands_wanted(&F32, 65, 9, 11);
    let exact = (65.0f32 / (1.0 - (1.0 / 9.0 + 1.0 / 11.0)) / 0.85).ceil();
    assert_eq!(n, exact as usize);
    let profile = analyze_data("x.txt", "The quick brown fox jumps over a lazy dog.\n", None);
    let rec = recommend(&F32, &profile, None).unwrap();
    assert!(rec.active_bands > profile.vocab_size);
    assert_eq!(rec.n_bands, 64);
    assert!(!estimates_fit(usize::MAX) && estimates_fit(512));
    let t = tokens_per_dim(&F32, 100, 100);
    assert!(t.reached && t.value == 0.5);
    assert!(!band_utilisation(&F32, 80, 100).reached);
    assert!(pos_per_head(&F32, 160, 4).reached);
    assert!(close(estimate_time_per_iter_ms(&F32, 42, 4, 16), 5.0));
    assert!(close(estimate_time_per_iter_ms(&F32, 84, 8, 16), 40.0));
    assert_eq!(format_time(&F32, 5000.0), (TimeUnit::Seconds, 5.0));
    assert_eq!(format_time(&F32, 120000.0), (TimeUnit::Minutes, 2.0));
    assert_eq!(format_time(&F32, 7200000.0), (TimeUnit::Hours, 2.0));
    assert_eq!(max_diff(&F32, &[1.0, 5.0], &[2.0, 2.0, 9.0]), 3.0);
    assert_eq!(worst_of(&F32, &vec![0.1, 0.3, 0.2]), 0.3);
    let v = gradient_verdict(&F32, 1e-5, 0.5);
    assert!(v.derivative && !v.integration && !v.passed());
    assert!(gradient_verdict(&F32, 1e-5, 1e-3).passed());
}

#[test]
fn models_are_stepped_whole() {
    let d = dims();
    let mut m = fresh(&d, 1);
    let frozen = m.blocks[1].attn.heads[0].phase_proj_w.clone();
    let n = count_trainable(&m);
    let before = flatten_params(&m);
    let modes = GroupModes {
        lr_layout: group_layout(&m, 4, 3, false),
        wd_layout: group_layout(&m, 4, 3, false),
        lr_scale: DynParam::Off,
        wd: DynParam::Dynamic,
        spring_k: 0.0,
    };
    let springs = SpringConfig {
        layer_scale: true,
        wd: false,
        rk4_weights: false,
        harmonics: false,
        corrector: false,
        agc_headroom: false,
        freeze_ode: false,
        spring_k: 0.0,
        active_layers: None,
        agc_ceiling: Some(1.25),
    };
    let mut adam = Adam::new(&F32, 0.01, n);
    let mut grads = vec![0.25; n];
    let mut wd = vec![0.0; 3];
    let mut headroom = vec![3.0; 2];
    let ceiling = train_step(
        &F32,
        &mut m,
        &mut grads,
        &mut adam,
        &modes,
        &springs,
        &mut wd,
        &mut headroom,
        false,
        None,
        0.01,
        f32::MAX,
    );
    // Without decay the first step moves each parameter down by the rate.
    let after = flatten_params(&m);
    for (a, b) in after.iter().zip(&before) {
        assert!((b - a - 0.01).abs() < 1e-3);
    }
    assert_eq!(m.blocks[1].attn.heads[0].phase_proj_w, frozen);
    assert_eq!(m.wte[1], vec![0.0, 1.0, 1.0, 0.0]);
    assert_eq!(ceiling, Some(1.25));
    assert_eq!(adam.checkpoint_state().0, 1);
    let norm: f32 = grads.iter().map(|g| g * g).sum::<f32>().sqrt();
    assert!((norm - 1.0).abs() < 1e-3);
}

#[test]
fn runs_are_set_up() {
    assert_eq!((effective_chi(&F32, 0.0, 0.3), effective_chi(&F32, 0.2, 0.3)), (0.3, 0.2));
    let mut m = fresh(&dims(), 1);
    assert!(!enable_mixing(&F32, &mut m, 0.0));
    assert_eq!(m.blocks[0].ffn.kerr.chi, 0.0);
    assert!(enable_mixing(&F32, &mut m, 0.2));
    assert_eq!((m.blocks[0].ffn.kerr.chi, m.blocks[1].ffn.kerr.chi), (0.2, 0.2));
    assert_eq!(least_bands(&F32, 50000), 400);
    assert_eq!(tokens_per_band(&F32, 100, 40), 2.5);
    let s = corrector_stats(&F32, &[1.0, -3.0]).unwrap();
    assert!(close(s.mean, -1.0) && close(s.std, 2.0) && s.max_abs == 3.0);
    assert!(corrector_stats(&F32, &[]).is_none());
    let t = |s: &str| s.to_string();
    let line = decomposition_line(
        5,
        "cpu",
        "0.1",
        &vec![DecompositionTexts {
            layer: 0,
            fwm_ratio: t("1"),
            fwm_vs_phase: t("2"),
            damping_ratio: t("3"),
            phase_ratio: t("4"),
            triple_ratio: t("5"),
            max_amp: t("6"),
            mean_amp: t("7"),
            rk4_ratio: t("8"),
            flux_max: t("9"),
            top_bands: [3, 1, 2],
        }],
    );
    assert_eq!(
        line,
        "{\"iter\":5,\"type\":\"ode_decomposition\",\"tier\":\"cpu\",\"chi\":0.1,\"layers\":[{\"layer\":0,\
         \"fwm_ratio\":1,\"fwm_vs_phase\":2,\"damping_ratio\":3,\"phase_ratio\":4,\"triple_ratio\":5,\
         \"max_amp\":6,\"mean_amp\":7,\"rk4_ratio\":8,\"flux_max\":9,\"top_bands\":[3,1,2]}]}"
    );
}

#[test]
fn gradients_are_shared_out() {
    let grads: Vec<f32> = vec![3.0, 4.0, 0.0, 5.0, 6.0, 8.0];
    assert_eq!(gradient_norm(&F32, &[3.0, 4.0]), 5.0);
    let r = gradient_report(&F32, &grads, 6, 1, 2, 2, 20.0);
    assert_eq!(r.layer_gn, vec![5.0, 5.0]);
    assert!(close(r.model_gn, 50.0f32.sqrt()));
    assert_eq!(r.head_gn, 10.0);
    assert!(close(r.head_pct, 50.0));
    // A vanishing gradient counts as a thousandth.
    let r = gradient_report(&F32, &vec![0.0, 0.002], 2, 1, 1, 1, 0.0);
    assert!(close(r.head_pct, 200.0));
}

#[test]
fn runs_are_averaged() {
    let ones: Vec<f32> = (0..150).map(|i| if i < 50 { 9.0 } else { 1.0 }).collect();
    assert_eq!(final_average(&F32, &ones), 1.0);
    assert_eq!(final_average(&F32, &vec![1.0, 3.0]), 2.0);
    assert_eq!(final_average(&F32, &vec![]), 0.0);
    assert_eq!(average(&F32, &[]), 0.0);
    assert!(rolling_averages(&F32, &ones).is_empty());
    let long: Vec<f32> = (0..2001).map(|i| if i < 2000 { 2.0 } else { 7.0 }).collect();
    assert_eq!(rolling_averages(&F32, &long), vec![(0, 2000, 2.0), (2000, 2001, 7.0)]);
    assert_eq!(per_iteration(&F32, 10.0, 4), 2.5);
    assert_eq!(per_iteration(&F32, 10.0, 0), 0.0);
    assert!(close(mean_damping(&F32, &[0.0, 30.0]), (2.0f32.ln() + 30.0) / 2.0));
}

#[test]
fn encodings_drift_when_unequal() {
    assert!(encoding_drifts(&F32, 0.7, 5.0, 2.0));
    assert!(encoding_drifts(&F32, 0.7, 2.0, 5.0));
    assert!(!encoding_drifts(&F32, 0.7, 4.0, 2.0));
    assert!(!encoding_drifts(&F32, 0.6, 5.0, 2.0));
    assert!(is_share(&F32, 0.0) && is_share(&F32, 1.0));
    assert!(!is_share(&F32, -0.1) && !is_share(&F32, 1.1) && !is_share(&F32, f32::NAN));
}

#[test]
fn reports_pick_what_moved() {
    let band = |index: usize, phase: f32| BandInfo { index, phase, magnitude: 1.0 };
    let bands = vec![band(0, 0.0), band(1, -0.5), band(2, 0.01), band(3, 0.2)];
    assert_eq!(turned_bands(&F32, &bands), vec![1, 3]);
    let delta = |index: usize, phase_drift_deg: f32| BandDelta {
        index,
        input_phase: 0.0,
        output_phase: 0.0,
        phase_drift_deg,
        input_mag: 1.0,
        output_mag: 1.0,
        mag_ratio: 1.0,
    };
    let moved = vec![delta(0, 2.0), delta(1, -9.0), delta(2, 1.0), delta(3, 0.5)];
    assert_eq!(strong_drifts(&F32, &moved), vec![(1, 9.0), (0, 2.0)]);
    let state = |mag: f32| BandState { mag, phase: 0.0 };
    assert_eq!(magnitude_sums(&F32, &vec![state(1.0), state(4.0)]), (5.0, 2.5));
    assert_eq!(census_percents(&F32, 1, 4), (25.0, 75.0));
    assert!(clusters_across(&F32, 0.5, 0.4) && !clusters_across(&F32, 0.4, 0.4));
    assert!(is_concentrated(&F32, 0.69) && !is_concentrated(&F32, 0.7));
}
