//! Layers, models, decoders and losses on numbers.

use wave_engine::arith::Arith;
use wave_engine::attention::causal_self_attention;
use wave_engine::backprop::{ffn_backward, FfnGrads, FfnKept, MaestroGrads};
use wave_engine::backward::{add_rows, start, NormBack};
use wave_engine::coherence::{argmax, decode_v1, decode_v2, phase_decode, DecodeMode};
use wave_engine::config::{Dims, ModelConfig};
use wave_engine::decoder::{decode, decode_back, loss_temperature, low_rank_logits, table_logits};
use wave_engine::ffn::{ffn_backward_via_backend, ffn_forward_via_backend, regulate};
use wave_engine::forward::{forward_plan, BlockResult, ForwardRun};
use wave_engine::kerr::{kerr_derivative, rk4_step_public, Offsets};
use wave_engine::layers::{gelu, layer_norm, linear_fn, softplus, softplus_derivative};
use wave_engine::loss::{
    batch_cosine_loss, check_cosine_gradient, cosine_loss, cross_entropy, cross_entropy_backward,
};
use wave_engine::ode_backward::ode_forward_with_cache;
use wave_engine::model::{
    block_uploads, draw_runs, init_model_ext, tail_uploads, AttentionWeights, FfnKind,
    KerrMaestroAddWeights, ModelWeights, PerBandLinearWeights,
};
use wave_engine::tables::{build_harmonic_table_sized, build_positional_table, default_init_values};
use wave_engine::wave_decode;
use wave_engine::wave_init;
use wave_engine::wave_model::WavePacketModel;
use wave_engine::wave_score;
use wave_engine::weights::{
    BlockDiagonalWeights, KerrDualMaestroWeights, KerrWeights, LinearWeights, MaestroWeights,
    OutProjWeights,
};

/// Single precision.
struct F32;

impl Arith<f32> for F32 {
    fn ratio(&self, num: u64, den: u64) -> f32 {
        (num as f64 / den as f64) as f32
    }
    fn count(&self, n: usize) -> f32 {
        n as f32
    }
    fn lowest(&self) -> f32 {
        f32::NEG_INFINITY
    }
    fn plus(&self, a: f32, b: f32) -> f32 {
        a + b
    }
    fn minus(&self, a: f32, b: f32) -> f32 {
        a - b
    }
    fn times(&self, a: f32, b: f32) -> f32 {
        a * b
    }
    fn over(&self, a: f32, b: f32) -> f32 {
        a / b
    }
    fn larger(&self, a: f32, b: f32) -> f32 {
        a.max(b)
    }
    fn negated(&self, a: f32) -> f32 {
        -a
    }
    fn exp(&self, a: f32) -> f32 {
        a.exp()
    }
    fn ln(&self, a: f32) -> f32 {
        a.ln()
    }
    fn root(&self, a: f32) -> f32 {
        a.sqrt()
    }
    fn tanh(&self, a: f32) -> f32 {
        a.tanh()
    }
    fn sin(&self, a: f32) -> f32 {
        a.sin()
    }
    fn cos(&self, a: f32) -> f32 {
        a.cos()
    }
    fn abs(&self, a: f32) -> f32 {
        a.abs()
    }
    fn ceiling(&self, a: f32) -> f32 {
        a.ceil()
    }
    fn angle(&self, y: f32, x: f32) -> f32 {
        y.atan2(x)
    }
    fn rest(&self, a: f32, b: f32) -> f32 {
        a.rem_euclid(b)
    }
    fn raised(&self, a: f32, b: f32) -> f32 {
        a.powf(b)
    }
    fn power(&self, a: f32, n: usize) -> f32 {
        a.powi(n as i32)
    }
    fn pi(&self) -> f32 {
        std::f32::consts::PI
    }
    fn exceeds(&self, a: f32, b: f32) -> bool {
        a > b
    }
    fn at_most(&self, a: f32, b: f32) -> bool {
        a <= b
    }
    fn equals(&self, a: f32, b: f32) -> bool {
        a == b
    }
    fn whole(&self, a: f32) -> usize {
        a as usize
    }
}

fn close(a: f32, b: f32) -> bool {
    (a - b).abs() < 1e-4
}

fn small(i: usize) -> f32 {
    ((i * 37 + 11) % 101) as f32 / 101.0 - 0.5
}

fn model() -> ModelWeights<f32> {
    let config = ModelConfig {
        n_bands: 2,
        n_head: 2,
        n_layers: 3,
        maestro_dim: 2,
        block_size: 4,
        rk4_n_steps: 3,
    };
    let n: usize = draw_runs(&config, true, 5).iter().map(|r| r.count).sum();
    let draws: Vec<f32> = (0..n).map(small).collect();
    init_model_ext(
        5,
        config,
        true,
        &draws,
        &default_init_values(&F32, 2),
        build_harmonic_table_sized(&F32, 5, 4),
        build_positional_table(&F32, 4, 4),
    )
}

fn dims() -> Dims {
    Dims {
        n_bands: 2,
        n_head: 2,
        n_embd: 4,
        maestro_dim: 3,
        block_size: 4,
        rk4_steps: 2,
        m1: 3,
        m2: 5,
        pythagorean: false,
        lm_rank: 0,
        tied: false,
        wave_decode: false,
        unfreeze_phases: false,
        learnable_ode: true,
        use_layer_scale: true,
        use_lr_scale: false,
    }
}

fn waves(d: &Dims) -> WavePacketModel<f32> {
    let n: usize = wave_init::draw_runs(d, 1, 2, 3).iter().map(|r| r.count).sum();
    let draws: Vec<f32> = (0..n).map(small).collect();
    let wte = vec![vec![1.0, 0.0, 0.0, 1.0], vec![0.0, 1.0, 1.0, 0.0], vec![0.5; 4]];
    wave_init::init_model(&F32, 3, 2, 1, d, 0.1, 0.2, &draws, wte, vec![vec![0.0; 4]; 4])
}

#[test]
fn activations() {
    assert_eq!(gelu(&F32, 0.0), 0.0);
    assert!(close(gelu(&F32, 1.0), 0.841192));
    assert!(close(softplus(&F32, 0.0), 2.0f32.ln()));
    assert_eq!(softplus(&F32, 30.0), 30.0);
    assert!(close(softplus_derivative(&F32, 0.0), 0.5));
}

#[test]
fn plain_layers() {
    assert_eq!(
        linear_fn(&F32, &vec![vec![1.0, 2.0], vec![3.0, 4.0]], &[10.0, 20.0], &[1.0, 1.0]),
        vec![13.0, 27.0]
    );
    let y = layer_norm(&F32, &[1.0, 3.0], &[1.0, 2.0], &[0.0, 5.0]);
    assert!(close(y[0], -1.0) && close(y[1], 7.0));
}

#[test]
fn projections_dense_and_in_groups() {
    let dense = OutProjWeights::dense(vec![vec![1.0, 2.0], vec![3.0, 4.0]], vec![1.0, 1.0]);
    assert_eq!(dense.forward(&F32, &[1.0, 1.0]), vec![4.0, 8.0]);
    assert_eq!(dense.backward_dx(&F32, &[1.0, 1.0]), vec![4.0, 6.0]);
    let (dw, db) = dense.backward_dw_db(&F32, &vec![vec![1.0, 2.0]], &vec![vec![5.0, 7.0]]);
    assert_eq!((dw, db), (vec![vec![5.0, 7.0], vec![10.0, 14.0]], vec![1.0, 2.0]));
    let one = |w: f32, b: f32| LinearWeights { w: vec![vec![w]], b: vec![b] };
    let mut parts = OutProjWeights::BlockDiagonal(BlockDiagonalWeights {
        groups: vec![one(2.0, 1.0), one(3.0, 0.0)],
        n_groups: 2,
        group_size: 1,
    });
    assert_eq!(parts.forward(&F32, &[1.0, 1.0]), vec![3.0, 3.0]);
    assert_eq!(parts.backward_dx(&F32, &[1.0, 1.0]), vec![2.0, 3.0]);
    assert_eq!((parts.dim(), parts.n_groups(), parts.param_count()), (2, 2, 4));
    let mut flat = Vec::new();
    parts.flatten_into(&mut flat);
    let mut at = 0;
    let twice: Vec<f32> = flat.iter().map(|x| 2.0 * x).collect();
    parts.unflatten_from(&twice, &mut at);
    assert_eq!(at, 4);
    assert_eq!(parts.forward(&F32, &[1.0, 1.0]), vec![6.0, 6.0]);
}

#[test]
fn attention_looks_back_only() {
    let w = AttentionWeights {
        c_attn: LinearWeights {
            w: (0..12).map(|i| (0..4).map(|j| small(i * 4 + j)).collect()).collect(),
            b: vec![0.0; 12],
        },
        c_proj: LinearWeights {
            w: (0..4).map(|i| (0..4).map(|j| small(i + 7 * j)).collect()).collect(),
            b: vec![0.0; 4],
        },
        n_head: 2,
    };
    let mut x = vec![vec![1.0, 0.0, 0.5, 0.2], vec![0.3, 0.1, 0.0, 1.0], vec![1.0; 4]];
    let before = causal_self_attention(&F32, &w, &x, 4);
    x[2] = vec![-3.0, 2.0, 9.0, 0.0];
    let after = causal_self_attention(&F32, &w, &x, 4);
    assert_eq!(before[..2], after[..2]);
    assert_ne!(before[2], after[2]);
}

#[test]
fn waves_turn_by_their_frequency() {
    let (dr, ds) = kerr_derivative(&F32, &[1.0], &[0.5], &[0.1], &[2.0], 0.3, 0.0, 0.0);
    let phi = 2.0 + 0.3 * 1.25;
    assert!(close(dr[0], -0.1 - phi * 0.5));
    assert!(close(ds[0], -0.05 + phi));
    let w = [1.0 / 6.0, 1.0 / 3.0, 1.0 / 3.0, 1.0 / 6.0];
    let (r, s) = rk4_step_public(&F32, &[1.0], &[0.0], 0.1, &[0.0], &[1.0], 0.0, 0.0, 0.0, &w);
    assert!(close(r[0], 0.1f32.cos()) && close(s[0], 0.1f32.sin()));
}

#[test]
fn models_look_back_only() {
    let m = model();
    let a = m.forward(&F32, &[1, 2, 3]);
    let b = m.forward(&F32, &[1, 2, 4]);
    assert_eq!(a.len(), 3);
    assert_eq!(a[0].len(), 5);
    assert_eq!(a[..2], b[..2]);
    assert_ne!(a[2], b[2]);
}

#[test]
fn empty_memory_changes_nothing() {
    let m = model();
    let plain = m.forward(&F32, &[1, 2]);
    assert_eq!(m.forward_with_memory(&F32, &[1, 2], None), plain);
    let none: Vec<Offsets<f32>> = vec![];
    assert_eq!(m.forward_with_memory(&F32, &[1, 2], Some(&none)), plain);
    let push = vec![
        Offsets { r: vec![0.5, 0.5], s: vec![0.1, 0.1] },
        Offsets { r: vec![0.5, 0.5], s: vec![0.1, 0.1] },
    ];
    assert_ne!(m.forward_with_memory(&F32, &[1, 2], Some(&push)), plain);
    let states = m.extract_ode_states(&F32, &[1, 2], None);
    assert_eq!(states.len(), 2);
    assert_eq!(states[0].r.len(), 2);
}

#[test]
fn plans_and_uploads_follow_the_model() {
    let m = model();
    let kinds = [FfnKind::PerBand, FfnKind::KerrDualMaestro, FfnKind::KerrMaestro];
    let plan = forward_plan(&kinds, Some(1));
    assert_eq!(plan[0].memory, None);
    assert_eq!((plan[1].memory, plan[2].memory), (Some(0), None));
    assert_eq!((plan[1].state, plan[2].state), (Some(0), Some(1)));
    let raw = block_uploads(&m.blocks[1]);
    assert_eq!(raw.iter().filter(|u| u.softplus).count(), 1);
    assert_eq!(tail_uploads(&m).len(), 3);
}

#[test]
fn entropies() {
    let (loss, d) = cross_entropy(&F32, &vec![vec![0.0, 0.0], vec![0.0, 0.0]], &[0, 1]);
    assert!(close(loss, 2.0f32.ln()));
    assert!(close(d[0][0], -0.25) && close(d[0][1], 0.25));
    let g = cross_entropy_backward(&F32, &[1.0, 2.0, 3.0], 2);
    assert!(close(g.iter().sum::<f32>(), 0.0) && g[2] < 0.0);
}

#[test]
fn cosine_losses() {
    let (same, g) = cosine_loss(&F32, &[1.0, 2.0], &[2.0, 4.0]);
    assert!(close(same, 0.0) && close(g[0], 0.0));
    let (right, _) = cosine_loss(&F32, &[1.0, 0.0], &[0.0, 3.0]);
    assert!(close(right, 1.0));
    let (batch, gs) =
        batch_cosine_loss(&F32, &vec![vec![1.0, 0.0]; 2], &vec![vec![1.0, 0.0], vec![0.0, 1.0]]);
    assert!(close(batch, 0.5));
    assert_eq!(gs.len(), 2);
    assert!(check_cosine_gradient(&F32, &[0.3, -0.4, 0.8], &[0.5, 0.1, 0.2]).0);
}

#[test]
fn tokens_are_decoded_by_phase() {
    let table = vec![vec![1.0, 0.0, 1.0, 0.0], vec![0.0, 1.0, 0.0, 1.0]];
    let straight = decode_v1(&F32, &[0.0, 2.0, 0.0, 3.0], &table, &[0.0, 0.0], 2, 2);
    assert_eq!(argmax(&F32, &straight), 1);
    // A corrector of a quarter turn back moves the answer.
    let quarter = std::f32::consts::FRAC_PI_2;
    let turned = decode_v1(&F32, &[0.0, 2.0, 0.0, 3.0], &table, &[-quarter, -quarter], 2, 2);
    assert_eq!(argmax(&F32, &turned), 0);
    for mode in [DecodeMode::MaxHarmonic, DecodeMode::SumHarmonic, DecodeMode::MagWeighted] {
        let s = decode_v2(&F32, &[1.0, 0.1, 1.0, 0.0], &table, &[0.0, 0.0], 2, 2, mode);
        assert_eq!(argmax(&F32, &s), 0);
    }
    let (by_phase, by_logit, rows) = phase_decode(&F32, &[0.0, 1.0, 0.0, 1.0], &table, &table, 2, table.len());
    assert_eq!((by_phase, by_logit, rows.len()), (1, 1, 2));
}

#[test]
fn decoders() {
    let x = vec![vec![1.0, 2.0]];
    assert_eq!(
        low_rank_logits(&F32, &vec![vec![1.0, 1.0]], &vec![vec![2.0], vec![-1.0]], &x),
        vec![vec![6.0, -3.0]]
    );
    let t = vec![vec![1.0, 0.0], vec![0.0, 1.0]];
    assert_eq!(table_logits(&F32, &t, None, &x), vec![vec![1.0, 2.0]]);
    assert_eq!(table_logits(&F32, &t, Some(10.0), &x), vec![vec![10.0, 20.0]]);
    assert!(loss_temperature(&F32, 0.5) > 0.0);
}

#[test]
fn wave_decoding_is_differentiated() {
    let wte = vec![vec![1.0, 0.2, -0.3, 0.9], vec![-0.4, 0.8, 0.5, 0.1]];
    let mut s = wave_score::init_unfrozen(&F32, &wte, 2);
    s.temperature = 1.0;
    let x = vec![vec![0.3, 0.7, -0.2, 0.6]];
    let d = vec![vec![1.0, -0.5]];
    let value = |s: &wave_decode::WaveDecodeState<f32>, x: &Vec<Vec<f32>>| {
        let l = wave_score::forward(&F32, x, s);
        l[0][0] - 0.5 * l[0][1]
    };
    let (dx, g) = wave_score::backward(&F32, &d, &x, &s);
    let h = 1e-2;
    for i in 0..4 {
        let mut up = x.clone();
        let mut down = x.clone();
        up[0][i] += h;
        down[0][i] -= h;
        let slope = (value(&s, &up) - value(&s, &down)) / (2.0 * h);
        assert!((slope - dx[0][i]).abs() < 1e-2, "{} {}", slope, dx[0][i]);
    }
    let flat = wave_decode::flatten_params(&s);
    let grads = wave_decode::flatten_grads(&g);
    assert_eq!(flat.len(), grads.len());
    assert_eq!(flat.len(), wave_decode::param_count(&s));
    for i in 0..flat.len() {
        let mut p = flat.clone();
        p[i] += h;
        wave_decode::unflatten_params(&mut s, &p);
        wave_score::refresh_cos_sin_cache(&F32, &mut s);
        let up = value(&s, &x);
        p[i] -= 2.0 * h;
        wave_decode::unflatten_params(&mut s, &p);
        wave_score::refresh_cos_sin_cache(&F32, &mut s);
        let slope = (up - value(&s, &x)) / (2.0 * h);
        wave_decode::unflatten_params(&mut s, &flat);
        wave_score::refresh_cos_sin_cache(&F32, &mut s);
        assert!((slope - grads[i]).abs() < 2e-2, "{} {} {}", i, slope, grads[i]);
    }
}

fn ffn() -> KerrDualMaestroWeights<f32> {
    let mut m = waves(&dims());
    m.blocks.remove(0).ffn
}

#[test]
fn blocks_are_differentiated() {
    // The gradients take the ODE as it is, so here it leaves its input as it is.
    let mut w = ffn();
    w.kerr.gamma_raw = vec![-30.0; 2];
    w.kerr.omega = vec![0.0; 2];
    w.kerr.alpha = 0.0;
    w.kerr.beta = 0.0;
    let x = vec![vec![0.3, -0.2, 0.5, 0.1], vec![0.0, 0.4, -0.6, 0.2]];
    let d = vec![vec![1.0, 0.5, -0.5, 0.2], vec![0.3, -1.0, 0.1, 0.7]];
    let value = |x: &Vec<Vec<f32>>| {
        let (out, _) = ffn_forward_via_backend(&F32, &w, x, 4);
        let mut sum = 0.0;
        for (row, back) in out.iter().zip(&d) {
            for (a, b) in row.iter().zip(back) {
                sum += a * b;
            }
        }
        sum
    };
    let (out, cache) = ffn_forward_via_backend(&F32, &w, &x, 4);
    assert_eq!((out.len(), out[0].len()), (2, 4));
    let entry = regulate(&F32, &w.maestro_in, &x, 4);
    assert_eq!(entry.sum, cache.precond);
    let (dx, grads) = ffn_backward_via_backend(&F32, &w, &d, &cache, 4, None);
    assert_eq!(grads.d_out_proj_b, vec![1.3, -0.5, -0.4, 0.9]);
    let h = 1e-2;
    for p in 0..2 {
        for i in 0..4 {
            let mut up = x.clone();
            let mut down = x.clone();
            up[p][i] += h;
            down[p][i] -= h;
            let slope = (value(&up) - value(&down)) / (2.0 * h);
            assert!((slope - dx[p][i]).abs() < 1e-2, "{} {}", slope, dx[p][i]);
        }
    }
}

#[test]
fn forward_runs_hand_each_block_what_the_last_gave() {
    let d = dims();
    let mut m = waves(&d);
    m.layer_scale = vec![0.5, 2.0];
    let mut run: ForwardRun<f32, u8, u8> =
        ForwardRun::new(&F32, &m, vec![vec![1.0, 0.0, 2.0, 1.0]], 4);
    for _ in 0..2 {
        run.prepare(&F32, &m, 4);
        assert!(close(run.normed[0].iter().sum::<f32>(), 0.0));
        run.step(
            &F32,
            &m,
            4,
            BlockResult {
                attn_out: vec![vec![1.0; 4]],
                ffn_out: vec![vec![1.0; 4]],
                att_weights: vec![],
                ffn_cache: 7,
                attn_cache: None,
            },
        );
    }
    let cache = run.finish(&F32, &m, 2, false, 4);
    assert_eq!(cache.block_caches[1].input, vec![vec![2.0, 1.0, 3.0, 2.0]]);
    assert_eq!(cache.pre_ln_f, vec![vec![6.0, 5.0, 7.0, 6.0]]);
    assert_eq!(cache.block_caches[0].ffn_backend_cache, Some(7));
    assert_eq!(cache.logits, decode(&F32, &m, 2, false, 4, &cache.post_ln_f));
    assert_eq!(cache.logits[0].len(), 3);
}

#[test]
fn backward_runs_gather_gradients() {
    let d = dims();
    let m = waves(&d);
    let post = vec![vec![0.3, -0.1, 0.8, 0.2], vec![0.5, 0.5, -0.5, 0.1]];
    let logits = decode(&F32, &m, 2, false, 4, &post);
    let mut run = start(&F32, &m, d, 1.0, &post, &logits, &[0, 2]);
    let (loss, _) = cross_entropy(&F32, &logits, &[0, 2]);
    assert!(close(run.loss, loss));
    // What the loss says of the input of the decoder.
    let h = 1e-2;
    for i in 0..4 {
        let mut up = post.clone();
        let mut down = post.clone();
        up[0][i] += h;
        down[0][i] -= h;
        let at = |x: &Vec<Vec<f32>>| {
            cross_entropy(&F32, &decode(&F32, &m, 2, false, 4, x), &[0, 2]).0
        };
        let slope = (at(&up) - at(&down)) / (2.0 * h);
        assert!((slope - run.d_hidden[0][i]).abs() < 1e-2);
    }
    let back = |x: f32| NormBack {
        d_x: vec![vec![x; 4]; 2],
        d_w: vec![vec![1.0; 4], vec![2.0; 4]],
        d_b: vec![vec![0.5; 4]; 2],
    };
    run.final_norm(&F32, d, 2, back(1.0));
    assert_eq!((run.grads.ln_f_w.clone(), run.grads.ln_f_b.clone()), (vec![3.0; 4], vec![1.0; 4]));
    assert_eq!(run.contribution(&F32, Some(0.5)), vec![vec![0.5; 4]; 2]);
    run.add_factor(&F32, d, 2, 1, &vec![vec![1.0; 4]; 2], &vec![vec![2.0; 4]; 2]);
    assert_eq!(run.grads.layer_scale, vec![0.0, 24.0]);
    run.block_norm(&F32, d, 2, 0, back(3.0));
    assert_eq!(run.d_hidden, vec![vec![4.0; 4]; 2]);
    assert_eq!(run.grads.block_ln_w[0], vec![3.0; 4]);
    let b = decode_back(&F32, &m, 2, false, 1.0, &post, &logits, &[0, 2], 4);
    assert!(close(b.loss, loss));
    assert_eq!(b.lm_head.len(), 3);
}

#[test]
fn sums_are_added_in_place() {
    let mut r = vec![vec![1.0], vec![2.0]];
    add_rows(&F32, &mut r, &vec![vec![1.0], vec![1.0]]);
    assert_eq!(r, vec![vec![2.0], vec![3.0]]);
}

#[test]
fn feed_forward_parts_have_their_values() {
    let m = model();
    let double = || LinearWeights { w: vec![vec![2.0, 0.0], vec![0.0, 2.0]], b: vec![0.0, 0.0] };
    let per_band = PerBandLinearWeights {
        band_w: vec![[[1.0, 2.0], [3.0, 4.0]]],
        band_b: vec![[0.5, -1.0]],
        out_proj: LinearWeights { w: vec![vec![1.0, 0.0], vec![0.0, 2.0]], b: vec![0.0, 1.0] },
    };
    assert_eq!(m.per_band_linear(&F32, &per_band, &vec![vec![5.0, 6.0]]), vec![vec![23.5, 67.0]]);
    // A maestro that squeezes everything to nothing gives its biases.
    let maestro = || MaestroWeights {
        squeeze: LinearWeights { w: vec![vec![0.0, 0.0]], b: vec![0.0] },
        process_1: LinearWeights { w: vec![vec![2.0], vec![3.0]], b: vec![7.0, 8.0] },
    };
    assert_eq!(m.maestro_forward(&F32, &maestro(), &[1.0, 2.0]), vec![7.0, 8.0]);
    // An ODE without damping, frequency and coupling leaves its input as it is.
    let still = || KerrWeights {
        gamma_raw: vec![-200.0],
        omega: vec![0.0],
        alpha: 0.0,
        beta: 0.0,
        rk4_n_steps: 2,
        phase_correction: vec![],
        rk4_weights: [1.0 / 6.0, 1.0 / 3.0, 1.0 / 3.0, 1.0 / 6.0],
        coherent_matrix: vec![],
        mix_strength: 0.0,
        chi: 0.0,
    };
    assert_eq!(m.kerr_ode_forward(&F32, &still(), &[1.0, 2.0]), vec![1.0, 2.0]);
    let held = Offsets { r: vec![0.5], s: vec![-1.0] };
    assert_eq!(
        m.kerr_ode_forward_with_memory(&F32, &still(), &[1.0, 2.0], Some(&held)),
        vec![1.5, 1.0]
    );
    // A memory is a shift of the input, and keeping a cache changes nothing.
    let lively = KerrWeights {
        gamma_raw: vec![-1.0, 0.2, 0.4, -0.3, 0.0],
        omega: vec![0.3, 1.0, 0.7, 0.2, 0.5],
        alpha: 0.2,
        beta: 0.3,
        rk4_n_steps: 5,
        ..still()
    };
    let state = [0.3, -0.2, 0.5, 0.1, -0.4, 0.6, 0.2, -0.1, 0.7, 0.4];
    let some = Offsets { r: vec![0.5, -0.25], s: vec![-1.0, 0.75] };
    let shifted = [0.8, -1.2, 0.25, 0.85, -0.4, 0.6, 0.2, -0.1, 0.7, 0.4];
    let with = m.kerr_ode_forward_with_memory(&F32, &lively, &state, Some(&some));
    let without = m.kerr_ode_forward(&F32, &lively, &shifted);
    let cached = ode_forward_with_cache(&F32, &shifted, &lively).0;
    for i in 0..state.len() {
        assert!(close(with[i], without[i]) && close(without[i], cached[i]));
    }
    let add = KerrMaestroAddWeights { kerr: still(), maestro: maestro(), out_proj: double() };
    let x = vec![vec![1.0, 2.0]];
    assert_eq!(m.kerr_maestro_add(&F32, &add, &x), vec![vec![16.0, 20.0]]);
    let dual = KerrDualMaestroWeights {
        kerr: still(),
        maestro_in: maestro(),
        maestro_out: maestro(),
        out_proj: OutProjWeights::Dense(double()),
    };
    assert_eq!(m.kerr_dual_maestro_forward(&F32, &dual, &x), vec![vec![30.0, 36.0]]);
}

#[test]
fn dense_projections_are_linear_layers() {
    let mut p = OutProjWeights::dense(vec![vec![1.0]], vec![2.0]);
    assert_eq!(p.as_linear().b, vec![2.0]);
    p.as_linear_mut().b[0] = 5.0;
    assert_eq!(p.bias_flat(), vec![5.0]);
}

/// The way back through a feed-forward part adds to the gradients that are there what the way
/// back with a pass of its own finds.
#[test]
fn feed_forward_gradients_are_added() {
    let w = ffn();
    let x = vec![vec![0.3, -0.2, 0.5, 0.1], vec![0.0, 0.4, -0.6, 0.2]];
    let d = vec![vec![1.0, 0.5, -0.5, 0.2], vec![0.3, -1.0, 0.1, 0.7]];
    let (_, cache) = ffn_forward_via_backend(&F32, &w, &x, 4);
    let (dx, found) = ffn_backward_via_backend(&F32, &w, &d, &cache, 4, None);
    let narrow = w.maestro_in.squeeze.w.len();
    let kept = FfnKept {
        mae_in_sq: cache.mae_in_sq,
        mae_in_act: cache.mae_in_act,
        kerr_out: cache.kerr_out,
        mae_out_sq: cache.mae_out_sq,
        mae_out_act: cache.mae_out_act,
        regulated: cache.regulated,
    };
    let fresh = || MaestroGrads {
        sq_w: vec![vec![1.0; 4]; narrow],
        sq_b: vec![1.0; narrow],
        pr_w: vec![vec![1.0; narrow]; 4],
        pr_b: vec![1.0; 4],
    };
    let start = FfnGrads {
        mae_in: fresh(),
        mae_out: fresh(),
        out_proj_w: vec![vec![1.0; 4]; 4],
        out_proj_b: vec![1.0; 4],
    };
    let (back, grads) = ffn_backward(&F32, &w, &x, &d, &kept, 4, start);
    let same = |a: &Vec<Vec<f32>>, b: &Vec<Vec<f32>>, more: f32| {
        assert_eq!(a.len(), b.len());
        for (a, b) in a.iter().zip(b) {
            assert_eq!(a.len(), b.len());
            for (a, b) in a.iter().zip(b) {
                assert!((a - b - more).abs() < 1e-5, "{a} {b}");
            }
        }
    };
    same(&back, &dx, 0.0);
    same(&grads.out_proj_w, &found.d_out_proj_w, 1.0);
    same(&grads.mae_out.pr_w, &found.d_mae_out_pr_w, 1.0);
    same(&grads.mae_out.sq_w, &found.d_mae_out_sq_w, 1.0);
    same(&grads.mae_in.pr_w, &found.d_mae_in_pr_w, 1.0);
    same(&grads.mae_in.sq_w, &found.d_mae_in_sq_w, 1.0);
    same(&vec![grads.out_proj_b], &vec![found.d_out_proj_b], 1.0);
    same(&vec![grads.mae_out.pr_b], &vec![found.d_mae_out_pr_b], 1.0);
    same(&vec![grads.mae_out.sq_b], &vec![found.d_mae_out_sq_b], 1.0);
    same(&vec![grads.mae_in.pr_b], &vec![found.d_mae_in_pr_b], 1.0);
    same(&vec![grads.mae_in.sq_b], &vec![found.d_mae_in_sq_b], 1.0);
}
