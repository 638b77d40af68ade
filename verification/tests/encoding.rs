//! Relationships, encoded states and what becomes of them.

use std::f32::consts::PI;

use wave_engine::arith::Arith;
use wave_engine::config::Dims;
use wave_engine::encode::{
    catalog_distribution, harmonic_label, matrix_cell, number_phases, pair_entry, pairs,
    parse_raw_phases, profile_entry, reference_band, relationship_steps, vocab_labels,
    vocab_relations_json, Cell, PairResult, ProfileResult, Target,
};
use wave_engine::phase_report::{
    compare_states, compute_energy_profile, deformation_similarity, deformation_vector,
    extract_bands, extreme_of, find_catalog_matches, relate_pairs, relate_states,
    relate_states_with_deformation, relation_counts, strength, token_state, InjectRun, Strength,
};
use wave_engine::phase_state::{
    degrees, encode_catalog_state, encode_number, encode_raw_phases, match_catalog,
};
use wave_engine::relations::{
    catalog, parse_catalog_spec, parse_rel_type, CatalogConfig, RelationType,
};
use wave_engine::wave_init::{draw_runs, init_model};
use wave_engine::wave_model::WavePacketModel;

/// Single precision.
struct F32;

impl Arith<f32> for F32 {
    fn ratio(&self, num: u64, den: u64) -> f32 {
        (num as f64 / den as f64) as f32
    }
    fn count(&self, n: usize) -> f32 {
        n as f32
    }
    fn lowest(&self) -> f32 {
        f32::NEG_INFINITY
    }
    fn plus(&self, a: f32, b: f32) -> f32 {
        a + b
    }
    fn minus(&self, a: f32, b: f32) -> f32 {
        a - b
    }
    fn times(&self, a: f32, b: f32) -> f32 {
        a * b
    }
    fn over(&self, a: f32, b: f32) -> f32 {
        a / b
    }
    fn larger(&self, a: f32, b: f32) -> f32 {
        a.max(b)
    }
    fn negated(&self, a: f32) -> f32 {
        -a
    }
    fn exp(&self, a: f32) -> f32 {
        a.exp()
    }
    fn ln(&self, a: f32) -> f32 {
        a.ln()
    }
    fn root(&self, a: f32) -> f32 {
        a.sqrt()
    }
    fn tanh(&self, a: f32) -> f32 {
        a.tanh()
    }
    fn sin(&self, a: f32) -> f32 {
        a.sin()
    }
    fn cos(&self, a: f32) -> f32 {
        a.cos()
    }
    fn abs(&self, a: f32) -> f32 {
        a.abs()
    }
    fn ceiling(&self, a: f32) -> f32 {
        a.ceil()
    }
    fn angle(&self, y: f32, x: f32) -> f32 {
        y.atan2(x)
    }
    fn rest(&self, a: f32, b: f32) -> f32 {
        a.rem_euclid(b)
    }
    fn raised(&self, a: f32, b: f32) -> f32 {
        a.powf(b)
    }
    fn power(&self, a: f32, n: usize) -> f32 {
        a.powi(n as i32)
    }
    fn pi(&self) -> f32 {
        std::f32::consts::PI
    }
    fn exceeds(&self, a: f32, b: f32) -> bool {
        a > b
    }
    fn at_most(&self, a: f32, b: f32) -> bool {
        a <= b
    }
    fn equals(&self, a: f32, b: f32) -> bool {
        a == b
    }
    fn whole(&self, a: f32) -> usize {
        a as usize
    }
}

fn close(a: f32, b: f32) -> bool {
    (a - b).abs() < 1e-4
}

const ALL: [RelationType; 12] = [
    RelationType::Conjunction,
    RelationType::Opposition,
    RelationType::Trine,
    RelationType::Square,
    RelationType::Quintile,
    RelationType::Sextile,
    RelationType::SemiSquare,
    RelationType::SemiSextile,
    RelationType::Quincunx,
    RelationType::Sesquiquadrate,
    RelationType::BiQuintile,
    RelationType::Quartet,
];

#[test]
fn angles_agree() {
    assert!(close(degrees(&F32, PI), 180.0));
    for rel in ALL {
        let rad: f32 = rel.angle_rad(&F32);
        assert!(close(degrees(&F32, rad), rel.angle_deg() as f32), "{}", rel.name());
    }
    assert_eq!(RelationType::Trine.angle_rad(&F32), 2.0 * PI / 3.0);
    assert_eq!(RelationType::Quartet.angle_rad(&F32), 0.0);
}

#[test]
fn relations_are_named() {
    for rel in ALL {
        assert_eq!(parse_rel_type(rel.name()), Some(rel));
    }
    assert_eq!(parse_rel_type("SemiSquare"), Some(RelationType::SemiSquare));
    assert_eq!(parse_rel_type("sideways"), None);
}

#[test]
fn angles_are_matched() {
    let (rel, drift) = match_catalog(&F32, 118.0).unwrap();
    assert_eq!(rel, RelationType::Trine);
    assert!(close(drift, 2.0));
    // The way round counts.
    assert_eq!(match_catalog(&F32, 355.0).unwrap().0, RelationType::Conjunction);
    assert!(match_catalog(&F32, 240.0).is_none());
    assert!(match_catalog(&F32, 20.0).is_none());
    for e in catalog() {
        let (rel, drift) = match_catalog(&F32, e.angle_deg as f32).unwrap();
        assert_eq!(rel, e.rel_type);
        assert_eq!(drift, 0.0);
    }
}

#[test]
fn catalog_states_hold_their_relations() {
    let configs = parse_catalog_spec("trine:3,7+opposition:1,5");
    assert_eq!(configs.len(), 2);
    let state = encode_catalog_state(&F32, &configs, 8);
    assert_eq!(state.len(), 16);
    let bands = extract_bands(&F32, &state);
    assert!(close(bands[7].phase - bands[3].phase, 2.0 * PI / 3.0));
    assert!(close((bands[5].phase - bands[1].phase).abs(), PI));
    for b in &bands {
        assert!(close(b.magnitude, 1.0));
    }
    let found = find_catalog_matches(&F32, &state);
    assert!(found.iter().any(|m| (m.band_a, m.band_b, m.rel_type) == (3, 7, RelationType::Trine)));
    assert!(found
        .iter()
        .any(|m| (m.band_a, m.band_b, m.rel_type) == (1, 5, RelationType::Opposition)));
    // A pair that nothing turned is in conjunction.
    assert!(found
        .iter()
        .any(|m| (m.band_a, m.band_b, m.rel_type) == (0, 2, RelationType::Conjunction)));
    assert!(encode_catalog_state(&F32, &vec![], 0).is_empty());
}

#[test]
fn quartets_are_phase_matched() {
    let config = CatalogConfig { rel_type: RelationType::Quartet, bands: vec![0, 1, 2, 30] };
    assert_eq!(reference_band(&config, 4), None);
    let steps = relationship_steps(&config, 4);
    assert_eq!(steps.len(), 4);
    assert_eq!(steps[3].band, 3);
    assert_eq!(steps[3].target, Target::Fixed(-1));
    let state = encode_catalog_state(&F32, &vec![config], 4);
    let b = extract_bands(&F32, &state);
    assert!(close(b[0].phase + b[1].phase, b[2].phase + b[3].phase));
    assert!(close(b[2].phase, PI / 4.0));
}

#[test]
fn raw_phases_are_written() {
    assert_eq!(
        parse_raw_phases("10:1.047, 20:2.094,x:1"),
        vec![(10, "1.047".to_string()), (20, "2.094".to_string())]
    );
    let state = encode_raw_phases(&F32, &vec![(1, PI / 2.0), (9, 1.0)], 2);
    assert!(close(state[0], 1.0) && close(state[1], 0.0));
    assert!(close(state[2], 0.0) && close(state[3], 1.0));
}

#[test]
fn numbers_are_told_apart() {
    let (m1, m2) = (5usize, 7usize);
    let mut seen: Vec<Vec<f32>> = Vec::new();
    for n in 0..35u64 {
        let s = encode_number(&F32, n, 5, m1, m2);
        assert_eq!(s.len(), 10);
        assert_eq!((s[8], s[9]), (0.0, 0.0));
        for other in &seen {
            let d: f32 = s.iter().zip(other).map(|(a, b)| (a - b).abs()).sum();
            assert!(d > 1e-3);
        }
        seen.push(s);
    }
    let wrapped = encode_number(&F32, 35, 5, m1, m2);
    assert!(wrapped.iter().zip(&seen[0]).all(|(a, b)| close(*a, *b)));
    let phases = number_phases(9, 5, m1, m2);
    assert_eq!(phases.len(), 4);
    assert_eq!((phases[0].residue, phases[2].residue), (4, 2));
    assert_eq!((phases[1].harmonic, phases[3].harmonic), (2, 2));
}

#[test]
fn comparisons_tell_drift_and_growth() {
    let input = vec![1.0, 0.0, 0.0, 1.0];
    let output = vec![0.0, 2.0, 0.0, 1.0];
    let r = compare_states(&F32, &input, &output);
    assert_eq!(r.per_band.len(), 2);
    assert!(close(r.per_band[0].phase_drift_deg, 90.0));
    assert!(close(r.per_band[0].mag_ratio, 2.0));
    assert!(close(r.per_band[1].phase_drift_deg, 0.0));
    assert_eq!(r.injected_matches[0].rel_type, RelationType::Square);
    assert_eq!(r.output_matches[0].rel_type, RelationType::Conjunction);
    // A drift of more than a half turn is told the other way.
    let back = compare_states(&F32, &[0.0, 1.0], &[1.0, 0.0]);
    assert!(close(back.per_band[0].phase_drift_deg, -90.0));
}

#[test]
fn energies_are_profiled() {
    let input = vec![1.0, 0.0, 1.0, 0.0, 2.0, 0.0];
    let output = vec![3.0, 0.0, 0.5, 0.0, 2.0, 0.0];
    let d = deformation_vector(&F32, &input, &output);
    assert!(close(d[0], 3.0) && close(d[1], 0.5) && close(d[2], 1.0));
    assert!(close(deformation_similarity(&F32, &d, &d), 1.0));
    let p = compute_energy_profile(&F32, "x", &input, &output, f32::MAX);
    assert_eq!(p.label, "x");
    assert_eq!((p.peak_band, p.damp_band), (0, 1));
    assert!(close(p.total_energy_ratio, 13.25 / 6.0));
    assert_eq!(extreme_of(&F32, 5.0, &vec![1.0, 2.0], true), (None, 5.0));
    assert_eq!(extreme_of(&F32, 0.0, &vec![1.0, 2.0, 2.0], true), (Some(1), 2.0));
}

#[test]
fn outputs_are_related() {
    let a = encode_raw_phases(&F32, &vec![(0, 0.0), (1, 0.3), (2, 0.6)], 3);
    let b = encode_raw_phases(
        &F32,
        &vec![(0, -2.0 * PI / 3.0), (1, 0.3 - 2.0 * PI / 3.0), (2, 0.6 - 2.0 * PI / 3.0)],
        3,
    );
    let r = relate_states(&F32, &a, &b, "a", "b");
    assert_eq!((r.label_a.as_str(), r.label_b.as_str()), ("a", "b"));
    assert!(close(r.mean_angular_distance_deg, 120.0));
    assert_eq!(r.catalog_match.unwrap().0, RelationType::Trine);
    assert_eq!(r.harmonics.len(), 17);
    assert_eq!(r.harmonics[16].n, 60);
    assert!(close(r.harmonics[2].mean_coherence, 1.0));
    assert_eq!(r.harmonics[2].bands_above_threshold, 3);
    assert!(close(r.shifted_mrl, 1.0));
    assert_eq!(r.deformation_sim, 0.0);
    let d = vec![1.0, 2.0];
    let with = relate_states_with_deformation(&F32, &a, &b, "a", "b", Some(&d), Some(&d));
    assert!(close(with.deformation_sim, 1.0));
    assert_eq!(strength(&F32, -0.9), Strength::Strong);
    assert_eq!(strength(&F32, 0.5), Strength::Moderate);
    assert_eq!(strength(&F32, 0.1), Strength::Weak);
    let labels: Vec<String> = vec!["p".to_string(), "q".to_string(), "r".to_string()];
    let outputs = vec![a.clone(), b.clone(), a.clone()];
    let reports = relate_pairs(&F32, &labels, &outputs, None);
    assert_eq!(reports.len(), 3);
    assert_eq!(reports[1].label_b, "r");
    let counts = relation_counts(&reports);
    assert_eq!(counts.len(), 2);
    assert!(counts.contains(&(RelationType::Trine, 1)));
    assert!(counts.contains(&(RelationType::Conjunction, 1)));
}

#[test]
fn pairs_stand_at_their_places() {
    let ps = pairs(4);
    assert_eq!(ps.len(), 6);
    assert_eq!(ps[3], (1, 2));
    for i in 0..4 {
        for j in 0..4 {
            match matrix_cell(4, i, j, 6) {
                Cell::Diagonal => assert_eq!(i, j),
                Cell::Report(k) => assert!(ps[k] == (i, j) || ps[k] == (j, i)),
                Cell::Unknown => panic!("no cell"),
            }
        }
    }
    assert!(pairs(1).is_empty());
}

#[test]
fn relations_are_counted_and_listed() {
    let found = [
        Some(RelationType::Square),
        None,
        Some(RelationType::Trine),
        Some(RelationType::Square),
    ];
    let dist = catalog_distribution(&found);
    assert_eq!(dist, vec![(RelationType::Square, 2), (RelationType::Trine, 1)]);
    assert_eq!(harmonic_label(3), "trine");
    assert_eq!(harmonic_label(7), "other");
    let labels = vocab_labels(3, Some(&vec!['a', '\n']));
    assert_eq!(labels, vec!["a".to_string(), "t1".to_string(), "t2".to_string()]);
    let pair = PairResult {
        a: "a\"".to_string(),
        b: "b".to_string(),
        angle: "1.0".to_string(),
        catalog: Some(RelationType::Trine),
        mrl: "0.500".to_string(),
        harmonic: 3,
        deform_sim: "0.100".to_string(),
    };
    assert_eq!(
        pair_entry(&pair, false),
        "    {\"a\":\"a\\\"\",\"b\":\"b\",\"angle\":1.0,\"catalog\":\"trine\",\"mrl\":0.500,\"harm\":3,\"deform_sim\":0.100}\n"
    );
    let profile = ProfileResult {
        label: "t".to_string(),
        total_energy_ratio: "1.000".to_string(),
        peak_band: 2,
        peak_ratio: "2.000".to_string(),
        damp_band: 1,
        damp_ratio: "0.500".to_string(),
    };
    assert!(profile_entry(&profile, true).ends_with("},\n"));
    let text = vocab_relations_json(3, &dist, &vec![pair], Some(&vec![profile]));
    assert!(text.starts_with("{\n  \"vocab_size\": 3,\n  \"total_pairs\": 1,\n"));
    assert!(text.contains("    \"square\": 2,\n    \"trine\": 1\n"));
    assert!(text.ends_with("\n}\n"));
}

fn dims() -> Dims {
    Dims {
        n_bands: 2,
        n_head: 2,
        n_embd: 4,
        maestro_dim: 2,
        block_size: 4,
        rk4_steps: 2,
        m1: 3,
        m2: 5,
        pythagorean: false,
        lm_rank: 0,
        tied: false,
        wave_decode: false,
        unfreeze_phases: false,
        learnable_ode: false,
        use_layer_scale: true,
        use_lr_scale: false,
    }
}

fn small_model() -> WavePacketModel<f32> {
    let d = dims();
    let n: usize = draw_runs(&d, 1, 2, 3).iter().map(|r| r.count).sum();
    let draws: Vec<f32> = (0..n).map(|i| i as f32 * 0.01).collect();
    let wte = vec![vec![1.0, 0.0, 0.0, 1.0], vec![0.0, 1.0, 1.0, 0.0], vec![0.5; 4]];
    init_model(&F32, 3, 2, 1, &d, 0.1, 0.2, &draws, wte, vec![vec![0.25; 4]; 4])
}

#[test]
fn states_are_injected() {
    let mut model = small_model();
    model.layer_scale[1] = 0.5;
    assert_eq!(token_state(&F32, &model, 2), vec![0.75; 4]);
    let mut run = InjectRun::new(vec![1.0, 2.0, 3.0, 4.0]);
    assert!(!run.needs_block(1));
    run.skip();
    assert!(run.needs_block(1));
    // The second layer enters by half.
    run.take(&F32, &model, vec![3.0, 4.0, 5.0, 6.0]);
    assert_eq!(run.hidden, vec![2.0, 3.0, 4.0, 5.0]);
    assert_eq!(run.per_layer, vec![vec![1.0, 2.0, 3.0, 4.0], vec![2.0, 3.0, 4.0, 5.0]]);
    let out = run.finish(&F32, &model);
    assert!(close(out.iter().sum::<f32>(), 0.0));
    let mut plain = InjectRun::new(vec![0.0; 4]);
    plain.take(&F32, &model, vec![1.0, 2.0, 3.0, 4.0]);
    assert_eq!(plain.hidden, vec![1.0, 2.0, 3.0, 4.0]);
}
