//! Files, names, texts and plans that hold no numbers of their own.

use wave_engine::bytes::{push_u32, push_u64, read_u32, read_u64};
use wave_engine::checkpoint::{read_source, SourceError};
use wave_engine::gradient_file::{gate_lines, read_gradient_file, GradientFileError};
use wave_engine::health::{
    compact_line, detailed_due, detailed_line, encoding_note, final_window,
    first_readings, health_due, health_lines, iq_fragment, measures_health, rolling_windows,
    summary_line, BatchHealthData, EncodingNote, GradientTelemetry, HealthReport,
    IterationTelemetry, RunSummary,
};
use wave_engine::json::{array, escape, field, join, monitor_line, number, object, tagged};
use wave_engine::parse::{is_white, parse_number, split, trim};
use wave_engine::recommend::{
    analyze_data, command_lines, compute_active_bands, compute_recommendation, detect_task_type,
    estimate_params, find_coprime_moduli, find_head_config, format_number, gcd, next_practical,
    warnings, Ratios, TaskType,
};
use wave_engine::scale::{
    scale_checkpoint, scale_plan, ScaleConfig, ScaleError, Slot, SourceDims,
};
use wave_engine::seqs::{deinterleave, interleave, interleave_halves, take_rows, transpose};
use wave_engine::text::{
    append_decimal, chars_of, replace_all, same_text, string_of, strip_suffix,
};
use wave_engine::token_cache::{cache_path_for, load_cache, path_hash, save_cache};
use wave_engine::train_loop::{
    bad_elements, check_groups, galaxy_dir_name, log_file_name, log_name, moduli_or_default,
    pair_label, periodic_checkpoint_name, related_positions, resume_optimizer, resume_params,
    scan_len, unrelated_positions, window, window_start, ResumeOptimizer, ResumeParams,
    TrainProgress,
};
use wave_engine::wave_training::{
    iter_checkpoint_name, stall_point, wave_vocab_size, wave_window, StallPoint, WaveProgress,
};

#[test]
fn numbers_come_back_from_their_bytes() {
    let mut out = vec![9u8];
    push_u32(&mut out, 0x01020304);
    push_u64(&mut out, u64::MAX - 1);
    assert_eq!(out[1..5], [4, 3, 2, 1]);
    assert_eq!(read_u32(&out, 1), 0x01020304);
    assert_eq!(read_u64(&out, 5), u64::MAX - 1);
}

#[test]
fn cached_tokens_come_back() {
    let b = save_cache(&[5, 6, 70000], 80000, Some(123), 77);
    assert_eq!(b.len(), 36 + 12);
    assert_eq!(b[0..4], *b"WTOK");
    assert_eq!(load_cache(&b, Some(123), 77), Some((vec![5, 6, 70000], 80000)));
}

#[test]
fn stale_caches_are_refused() {
    assert_eq!(path_hash(b""), 0xcbf2_9ce4_8422_2325);
    assert_eq!(path_hash(b"a"), 0xaf63_dc4c_8601_ec8c);
    assert_ne!(path_hash(b"a.json"), path_hash(b"b.json"));
    let b = save_cache(&[5, 6], 10, Some(123), 77);
    assert_eq!(load_cache(&b, Some(124), 77), None);
    assert_eq!(load_cache(&b, None, 77), None);
    assert_eq!(load_cache(&b, Some(123), 78), None);
    assert_eq!(load_cache(&b[..43], Some(123), 77), None);
    assert_eq!(load_cache(&b[..20], Some(123), 77), None);
    let mut other = b.clone();
    other[0] = 0;
    assert_eq!(load_cache(&other, Some(123), 77), None);
    assert_eq!(cache_path_for("a.txt", true), "a.txt.bpe.tokens");
    assert_eq!(cache_path_for("a.txt", false), "a.txt.char.tokens");
}

/// A checkpoint of one layer, one band and one token, with its parameters counted up.
fn checkpoint(version: u32) -> Vec<u8> {
    let mut b = b"WCHK".to_vec();
    push_u32(&mut b, version);
    // Bands, heads, layers, regulator, block, steps, groups.
    for v in [1, 1, 1, 1, 8, 4, 1] {
        push_u32(&mut b, v);
    }
    push_u64(&mut b, 1);
    // Iteration, rate, generator and step count.
    while b.len() < 72 {
        b.push(0);
    }
    let n: u32 = 8 + 2 * (2 + 1 + 2 + 2) + 6 + 4 + 2;
    for _ in 0..2 * n {
        push_u32(&mut b, 0);
    }
    for i in 0..n {
        push_u32(&mut b, 1000 + i);
    }
    b
}

#[test]
fn checkpoints_are_read() {
    let b = checkpoint(2);
    let info = match read_source(&b) {
        Ok(i) => i,
        Err(e) => panic!("{:?}", e),
    };
    assert_eq!((info.dims.n_bands, info.dims.vocab_size, info.block_size), (1, 1, 8));
    assert_eq!((info.n_head, info.rk4_steps), (1, 4));
    assert_eq!(info.params.len(), 34);
    assert_eq!((info.params[0], info.params[33]), (1000, 1033));
}

#[test]
fn bad_checkpoints_are_refused() {
    let b = checkpoint(2);
    assert_eq!(read_source(&b[..3]).err(), Some(SourceError::NoMagic));
    assert_eq!(read_source(b"nope....").err(), Some(SourceError::NotCheckpoint));
    assert_eq!(read_source(&checkpoint(1)).err(), Some(SourceError::OtherVersion));
    assert_eq!(read_source(&checkpoint(3)).err(), Some(SourceError::OtherVersion));
    assert_eq!(read_source(&b[..100]).err(), Some(SourceError::NoOptimizer));
    assert_eq!(read_source(&b[..b.len() - 1]).err(), Some(SourceError::NoParams));
}

fn gradient_words(words: &[u32]) -> Vec<u8> {
    let mut b = Vec::new();
    for w in words {
        push_u32(&mut b, *w);
    }
    b
}

#[test]
fn gradient_files_are_read() {
    let mut words = vec![0x47524144, 1, 1];
    for i in 0..14 {
        words.push(100 + i);
    }
    words.push(2);
    for i in 0..14 {
        words.push(200 + i);
    }
    let b = gradient_words(&words);
    let (d, g) = match read_gradient_file(&b, 1) {
        Ok(x) => x,
        Err(e) => panic!("{:?}", e),
    };
    assert_eq!((d.r[0], d.omega[0], d.alpha, d.d_dr[0]), (100, 103, 104, 106));
    assert_eq!((d.expected_d_r[0], d.expected_d_beta), (108, 113));
    assert_eq!((g.input.clone(), g.gamma_raw[0], g.beta), (vec![200, 201], 202, 205));
    assert_eq!((g.d_output[0], g.expected_d_input[1], g.expected_d_beta), (206, 209, 213));
    assert_eq!(
        read_gradient_file(&b[..b.len() - 1], 1).err(),
        Some(GradientFileError::Truncated)
    );
}

#[test]
fn bad_gradient_files_are_refused() {
    assert_eq!(read_gradient_file(&[1, 2], 1).err(), Some(GradientFileError::Truncated));
    assert_eq!(
        read_gradient_file(&gradient_words(&[1]), 1).err(),
        Some(GradientFileError::BadMagic)
    );
    assert_eq!(
        read_gradient_file(&gradient_words(&[0x47524144, 3]), 1).err(),
        Some(GradientFileError::BadVersion)
    );
    assert_eq!(
        read_gradient_file(&gradient_words(&[0x47524144, 1, 7]), 1).err(),
        Some(GradientFileError::BadCase(1))
    );
    let mut long = vec![0x47524144, 1, 1];
    long.resize(18, 0);
    assert_eq!(
        read_gradient_file(&gradient_words(&long), 1).err(),
        Some(GradientFileError::BadCase(2))
    );
    assert_eq!(gate_lines(true, true), vec!["  PASS. Analytical gradients match PyTorch autograd."]);
    assert_eq!(gate_lines(true, false).len(), 2);
    assert_eq!(gate_lines(false, false)[1], "  - Derivative backward has issues");
}

fn source() -> SourceDims {
    SourceDims { n_bands: 1, n_layers: 1, maestro_dim: 1, out_proj_groups: 1, vocab_size: 1 }
}

#[test]
fn scaled_models_keep_their_source() {
    let plan = scale_plan(&source(), 2, 1);
    let kept: Vec<usize> = plan
        .iter()
        .filter_map(|s| match s {
            Slot::Source(i) => Some(*i),
            _ => None,
        })
        .collect();
    assert_eq!(kept, (0..34).collect::<Vec<usize>>());
    // The first normalisation: weights grow by ones, biases by zeros.
    assert_eq!(
        plan[..8],
        [
            Slot::Source(0),
            Slot::Source(1),
            Slot::One,
            Slot::One,
            Slot::Source(2),
            Slot::Source(3),
            Slot::Zero,
            Slot::Zero
        ]
    );
    assert!(plan.contains(&Slot::Random));
    // A model of two bands has this many parameters.
    assert_eq!(plan.len(), 16 + 2 * (4 + 1 + 4 + 4) + 20 + 8 + 4);
}

#[test]
fn bands_keep_their_weights_in_other_groups() {
    // Two groups of one band each become two groups of two bands each.
    let d = SourceDims { n_bands: 2, n_layers: 1, maestro_dim: 1, out_proj_groups: 2, vocab_size: 1 };
    let plan = scale_plan(&d, 4, 2);
    let at = 16 + 2 * (4 + 1 + 4 + 4);
    let start = 32 + 2 * (8 + 1 + 8 + 8);
    // The first target group holds both bands: their blocks stand on its diagonal.
    let s = Slot::Source;
    assert_eq!(plan[start..start + 4], [s(at), s(at + 1), Slot::Zero, Slot::Zero]);
    assert_eq!(plan[start + 4..start + 8], [s(at + 2), s(at + 3), Slot::Zero, Slot::Zero]);
    assert_eq!(plan[start + 8..start + 12], [Slot::Zero, Slot::Zero, s(at + 6), s(at + 7)]);
    assert_eq!(plan[start + 12..start + 16], [Slot::Zero, Slot::Zero, s(at + 8), s(at + 9)]);
    assert_eq!(plan[start + 16..start + 20], [s(at + 4), s(at + 5), s(at + 10), s(at + 11)]);
    // The second one is new.
    assert_eq!(plan[start + 20..start + 36], [Slot::Random; 16]);
    assert_eq!(plan[start + 36..start + 40], [Slot::Zero; 4]);
}

#[test]
fn bad_scalings_are_refused() {
    let mut c = ScaleConfig {
        source_path: "a".to_string(),
        target_bands: 1,
        target_head: 1,
        output_path: "b".to_string(),
        target_groups: 1,
        seed: 7,
    };
    let e = scale_checkpoint(&source(), &c).err().unwrap();
    assert_eq!(e, ScaleError::BandsNotLarger { target: 1, source: 1 });
    assert_eq!(e.message(), "Target bands (1) must be greater than source (1)");
    c.target_bands = 2;
    c.target_head = 3;
    let e = scale_checkpoint(&source(), &c).err().unwrap();
    assert_eq!(e.message(), "Target n_embd (4) must be divisible by target n_head (3)");
    c.target_head = 2;
    assert_eq!(scale_checkpoint(&source(), &c).ok(), Some(scale_plan(&source(), 2, 1)));
}

#[test]
fn tasks_are_named_and_detected() {
    for t in [TaskType::Arithmetic, TaskType::Words, TaskType::Grammar, TaskType::Language] {
        assert_eq!(TaskType::from_str(t.name()), Some(t));
    }
    assert_eq!(TaskType::from_str("lang"), Some(TaskType::Language));
    assert_eq!(TaskType::from_str("poetry"), None);
    assert_eq!(detect_task_type("1+2=3\n", 14), TaskType::Arithmetic);
    assert_eq!(detect_task_type("cat=dog\nup=down\n", 30), TaskType::Words);
    assert_eq!(detect_task_type("a sentence without sign\n", 30), TaskType::Grammar);
    let p = analyze_data("x.txt", "1+2=3\n", None);
    assert_eq!((p.corpus_chars, p.vocab_size, p.task_overridden), (6, 6, false));
    assert!(analyze_data("x.txt", "1+2=3\n", Some(TaskType::Words)).task_overridden);
}

#[test]
fn recommendations() {
    assert_eq!(gcd(12, 18), 6);
    assert_eq!(gcd(0, 5), 5);
    let (a, b) = find_coprime_moduli(65);
    assert_eq!((a, b), (9, 11));
    assert!(a * b >= 65 && gcd(a, b) == 1);
    assert_eq!(compute_active_bands(100, 9, 11), 100 - 5 - 4);
    assert_eq!((next_practical(43), next_practical(513)), (64, 576));
    assert_eq!(find_head_config(168, 4), (4, 42));
    assert_eq!(format_number(1234567), "1,234,567");
    assert_eq!(format_number(1000), "1,000");
    assert_eq!(format_number(999), "999");
    assert_eq!(estimate_params(1, 4, 1), 16 + 3 + 8 + 8 + 4 + 1);
    let p = analyze_data("x.txt", "1+2=3\n", None);
    let rec = compute_recommendation(&p, None, 40);
    assert_eq!((rec.n_bands, rec.seq_len, rec.n_head), (42, 16, 4));
    assert_eq!(rec.compute_tier, "CPU");
    let lines = command_lines("x.txt", &rec, 500, true, 50);
    assert_eq!(lines[0], "  wave-engine x.txt \\");
    assert_eq!(lines[1], "    --resume checkpoint.bin \\");
    assert_eq!(lines[lines.len() - 1], "    --health-interval 50");
    let r = Ratios {
        tokens_per_dim: "0.60".to_string(),
        crowded: true,
        band_utilisation: "10.0".to_string(),
        saturated: false,
        pos_per_head: "4".to_string(),
        diffuse: false,
    };
    let w = warnings(&rec, &p, &r);
    assert!(w[0].starts_with("tokens_per_dim = 0.60 (>= 0.50)"));
    assert!(w[w.len() - 1].ends_with("for seq=16"));
}

#[test]
fn json_is_put_together() {
    assert_eq!(escape("a\"b\\\n\t"), "a\\\"b\\\\\\n\\t");
    assert!(!escape("x\ny\rz").contains('\n'));
    assert_eq!(number(40), "40");
    assert_eq!(join(&vec!["a".to_string(), "b".to_string()], "; "), "a; b");
    assert_eq!(array(&vec![]), "[]");
    assert_eq!(array(&vec!["1".to_string(), "2".to_string()]), "[1,2]");
    assert_eq!(
        object(&vec![field("a", "1".to_string()), field("b", "2".to_string())]),
        "{\"a\":1,\"b\":2}"
    );
    assert_eq!(tagged(3, "health", "\"x\":1"), "{\"iter\":3,\"type\":\"health\",\"x\":1}");
    assert_eq!(monitor_line(3, "\"x\":1"), "{\"iter\":3,\"type\":\"monitor\",\"x\":1}");
}

#[test]
fn texts() {
    let mut s = "n=".to_string();
    append_decimal(&mut s, 0);
    append_decimal(&mut s, 907);
    assert_eq!(s, "n=0907");
    assert_eq!(string_of(&chars_of("grüße")), "grüße");
    assert!(same_text("ab", "ab") && !same_text("ab", "abc"));
    assert_eq!(strip_suffix("a.bin", ".bin"), "a");
    assert_eq!(strip_suffix("a.bin.bin", ".bin"), "a.bin");
    assert_eq!(strip_suffix("a.txt", ".bin"), "a.txt");
    assert_eq!(replace_all("aXbXc", "X", "--"), "a--b--c");
    assert_eq!(split(&chars_of("a,,b"), ',').len(), 3);
    assert_eq!(trim(&chars_of("  a b\t")), chars_of("a b"));
    assert!(is_white(' ') && !is_white('x'));
    assert_eq!(parse_number(&chars_of("0042")), Some(42));
    assert_eq!(parse_number(&chars_of("4x")), None);
    assert_eq!(parse_number(&chars_of("")), None);
    assert_eq!(parse_number(&chars_of("99999999999999999999999")), None);
}

#[test]
fn pairs_are_taken_apart_and_put_together() {
    let x = [1, 2, 3, 4, 5, 6];
    let (r, s) = deinterleave(&x, 3);
    assert_eq!((r.clone(), s.clone()), (vec![1, 3, 5], vec![2, 4, 6]));
    assert_eq!(interleave(&r, &s), x.to_vec());
    assert_eq!(interleave_halves(&[1, 3, 5, 2, 4, 6], 3), x.to_vec());
    let t = transpose(&[1, 2, 3, 4], 2);
    assert_eq!(t, vec![1, 3, 2, 4]);
    assert_eq!(transpose(&t, 2), vec![1, 2, 3, 4]);
    assert_eq!(take_rows(&x, 1, 2, 2), vec![vec![2, 3], vec![4, 5]]);
}

#[test]
fn telemetry_lines() {
    let t = IterationTelemetry {
        iter: 7,
        loss: "1.5".to_string(),
        lr: "0.1".to_string(),
        time_ms: "12".to_string(),
        nan_skips: 1,
    };
    assert_eq!(
        compact_line(&t),
        "{\"iter\":7,\"loss\":1.5,\"lr\":0.1,\"time_ms\":12,\"nan_skips\":1}"
    );
    let g = GradientTelemetry {
        model_gn: "1".to_string(),
        head_gn: "2".to_string(),
        head_pct: "3".to_string(),
        layer_gn: vec!["4".to_string(), "5".to_string()],
        ode_clamps: 6,
        ode_max_mag: "7".to_string(),
        agc_threshold: "8".to_string(),
        agc_mean: "9".to_string(),
        agc_std: "10".to_string(),
        ode_params: None,
        layer_scale: Some(vec!["11".to_string()]),
        lr_scale: None,
        rk4_weights: None,
        wd_scale: None,
        harmonics: None,
        agc_headroom: None,
    };
    let line = detailed_line(&t, &g);
    assert!(line.contains("\"layer_gn\":[4,5],\"ode_clamps\":6"));
    assert!(line.ends_with("\"agc_std\":10,\"layer_scale\":[11]}"));
    let s = RunSummary {
        best_loss: "0.5".to_string(),
        best_iter: 3,
        final_avg: "0.6".to_string(),
        nan_skips: 0,
        total_iters: 9,
        time_secs: 2,
        ms_per_iter: "222".to_string(),
    };
    assert_eq!(
        summary_line(&s),
        "{\"type\":\"summary\",\"best_loss\":0.5,\"best_iter\":3,\"final_avg\":0.6,\
         \"nan_skips\":0,\"total_iters\":9,\"time_secs\":2,\"ms_per_iter\":222}"
    );
    assert_eq!(rolling_windows(2000), vec![]);
    assert_eq!(rolling_windows(4500), vec![(0, 2000), (2000, 4000), (4000, 4500)]);
    assert_eq!((final_window(50), final_window(250)), ((0, 50), (150, 250)));
}

#[test]
fn health_reports() {
    let mut r = HealthReport {
        encoding: None,
        distortion: Some("{raw}".to_string()),
        grad_flow: Some("".to_string()),
        dyn_param: "\"d\":1".to_string(),
        throughput: "\"t\":2".to_string(),
        attn: None,
        flow: None,
        output: Some("\"o\":3".to_string()),
        embedding: "\"e\":4".to_string(),
        ode_dynamics: None,
        iq: None,
    };
    let lines = health_lines(&r, 5, 0);
    assert_eq!(lines.len(), 5);
    assert_eq!(lines[0], "{raw}");
    assert_eq!(lines[4], monitor_line(5, "\"e\":4"));
    r.encoding = Some("\"x\":0".to_string());
    let later = health_lines(&r, 5, 1);
    assert_eq!(later[0], "{\"iter\":5,\"type\":\"health\",\"x\":0}");
    assert_eq!(later.len(), 5);
    assert_eq!(encoding_note(true, 1, 10), EncodingNote::Drift);
    assert_eq!(encoding_note(false, 50, 10), EncodingNote::Sample);
    assert_eq!(encoding_note(false, 51, 10), EncodingNote::Quiet);
    assert!(health_due(10, 20) && !health_due(0, 20) && !health_due(10, 21));
    assert!(measures_health(10, 20, 0) && !measures_health(10, 20, 1));
    assert!(detailed_due(200) && !detailed_due(201));
    let values: Vec<String> = ["1", "2", "3", "4", "5"].iter().map(|s| s.to_string()).collect();
    assert!(iq_fragment(&values, 6, 7).ends_with("\"i_correct_rank\":6,\"q_correct_rank\":7}"));
}

#[test]
fn the_first_reading_of_each_kind_counts() {
    let empty = || BatchHealthData::<u8, u8, u8, u8, u8, u8, u8> {
        distortion: None,
        grad_flow: None,
        attn_stats: None,
        flow_stats: None,
        output_stats: None,
        ode_dynamics: None,
        iq_analysis: None,
    };
    let mut a = empty();
    a.grad_flow = Some(1);
    let mut b = empty();
    b.grad_flow = Some(2);
    b.iq_analysis = Some(3);
    let out = first_readings(vec![empty(), a, b]);
    assert_eq!((out.grad_flow, out.iq_analysis, out.distortion), (Some(1), Some(3), None));
}

#[test]
fn runs_are_accounted_for() {
    let mut run: TrainProgress<u32> = TrainProgress::new(495, 510);
    let mut skipped = 0;
    while run.running() {
        let i = run.iter;
        let finite = i % 4 != 0;
        let plan = run.step(i as u32, finite, i == 500 || i == 501, 0);
        assert_eq!(plan.skip, !finite);
        assert_eq!(plan.checkpoint, finite && (i + 1) % 500 == 0);
        assert!(!plan.health);
        if !finite {
            skipped += 1;
        }
    }
    assert_eq!(run.iter, run.total_iters);
    assert_eq!((run.nan_skips, run.history.len() + skipped), (skipped, run.iter - 495));
    assert_eq!((run.best, run.best_iter), (Some(501), 501));
    assert_eq!(run.recent.len(), 100);
    assert_eq!(run.recent[99], run.history[run.history.len() - 1]);
}

#[test]
fn flat_wave_runs_stop() {
    let mut run: WaveProgress<u32> = WaveProgress::new(0, 9000);
    let mut saved = Vec::new();
    while run.running() {
        let i = run.iter;
        let plan = run.step(1, true, false, true, i == 5000);
        assert_eq!(plan.warn_stall, i == 2000);
        if let Some(at) = plan.checkpoint {
            saved.push(at);
        }
        assert_eq!(plan.abort, i == 5000);
    }
    assert!(run.stopped);
    assert_eq!(run.iter, 5001);
    assert_eq!(saved[0], 501);
    assert_eq!(saved.len(), 9);
    assert_eq!((stall_point(500), stall_point(501)), (StallPoint::Remember, StallPoint::Nothing));
    assert_eq!((stall_point(2000), stall_point(5000)), (StallPoint::Compare, StallPoint::Decide));
}

#[test]
fn windows_lie_in_the_data() {
    let data: Vec<usize> = (0..20).collect();
    for r in 0..40 {
        let at = window_start(r, 20, 8);
        let (x, y) = window(&data, at, 8);
        assert_eq!(x, data[at..at + 8].to_vec());
        assert_eq!(y, data[at + 1..at + 9].to_vec());
        let w = wave_window(r, 20, 8);
        assert!(w.start + w.len + 1 <= 20);
        assert_eq!(w.len, 8);
    }
    assert_eq!(wave_window(5, 3, 8).len, 2);
    assert_eq!((wave_vocab_size(0), wave_vocab_size(5)), (1, 5));
}

#[test]
fn names_and_resumption() {
    assert_eq!(log_name(Some("x.jsonl"), "checkpoint.bin", true), "x.jsonl");
    assert_eq!(log_name(None, "checkpoint.bin", true), "training_log_wgpu.jsonl");
    assert_eq!(log_name(None, "checkpoint.bin", false), "training_log_cpu.jsonl");
    assert_eq!(log_name(None, "mine.bin", true), "training_log_mine.jsonl");
    assert_eq!(log_file_name("a"), "training_log_a.jsonl");
    assert_eq!(periodic_checkpoint_name(500), "checkpoint_iter500.bin");
    assert_eq!(galaxy_dir_name("a.bin"), "a_galaxy");
    assert_eq!(iter_checkpoint_name("wave", 501), "wave_iter501.bin");
    assert_eq!((resume_params(3, 3), resume_params(3, 4)), (ResumeParams::Full, ResumeParams::Base));
    assert_eq!(resume_optimizer(3, 3), ResumeOptimizer::Keep);
    assert_eq!(resume_optimizer(3, 4), ResumeOptimizer::Fresh);
    assert!(check_groups(168, 4).is_ok() && check_groups(168, 0).is_ok());
    let e = check_groups(10, 4).err().unwrap();
    assert_eq!((e.covered, e.orphaned, e.valid), (8, 2, vec![1, 2, 5, 10]));
    assert_eq!(bad_elements(&vec![true, false, true, false]), vec![1, 3]);
    assert_eq!(related_positions(5), vec![(0, 1), (2, 3)]);
    assert_eq!(unrelated_positions(4)[1], (1, 3));
    assert_eq!(pair_label(2, 5), "pos2/5");
    assert_eq!((scan_len(150), scan_len(900)), (150, 200));
    assert_eq!((moduli_or_default(None, Some(9)), moduli_or_default(Some(3), None)), ((5, 9), (3, 7)));
}
