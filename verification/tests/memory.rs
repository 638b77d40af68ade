//! The wave memory.

use wave_engine::arith::Arith;
use wave_engine::kerr::Offsets;
use wave_engine::relations::RelationType;
use wave_engine::wave_memory::{
    build_offsets, conjunctions, memory_scan_json, merge_ode_states, scan_memory, MemoryConfig,
    ScanTexts, WaveMemory,
};

/// Single precision.
struct F32;

impl Arith<f32> for F32 {
    fn ratio(&self, num: u64, den: u64) -> f32 {
        (num as f64 / den as f64) as f32
    }
    fn count(&self, n: usize) -> f32 {
        n as f32
    }
    fn lowest(&self) -> f32 {
        f32::NEG_INFINITY
    }
    fn plus(&self, a: f32, b: f32) -> f32 {
        a + b
    }
    fn minus(&self, a: f32, b: f32) -> f32 {
        a - b
    }
    fn times(&self, a: f32, b: f32) -> f32 {
        a * b
    }
    fn over(&self, a: f32, b: f32) -> f32 {
        a / b
    }
    fn larger(&self, a: f32, b: f32) -> f32 {
        a.max(b)
    }
    fn negated(&self, a: f32) -> f32 {
        -a
    }
    fn exp(&self, a: f32) -> f32 {
        a.exp()
    }
    fn ln(&self, a: f32) -> f32 {
        a.ln()
    }
    fn root(&self, a: f32) -> f32 {
        a.sqrt()
    }
    fn tanh(&self, a: f32) -> f32 {
        a.tanh()
    }
    fn sin(&self, a: f32) -> f32 {
        a.sin()
    }
    fn cos(&self, a: f32) -> f32 {
        a.cos()
    }
    fn abs(&self, a: f32) -> f32 {
        a.abs()
    }
    fn ceiling(&self, a: f32) -> f32 {
        a.ceil()
    }
    fn angle(&self, y: f32, x: f32) -> f32 {
        y.atan2(x)
    }
    fn rest(&self, a: f32, b: f32) -> f32 {
        a.rem_euclid(b)
    }
    fn raised(&self, a: f32, b: f32) -> f32 {
        a.powf(b)
    }
    fn power(&self, a: f32, n: usize) -> f32 {
        a.powi(n as i32)
    }
    fn pi(&self) -> f32 {
        std::f32::consts::PI
    }
    fn exceeds(&self, a: f32, b: f32) -> bool {
        a > b
    }
    fn at_most(&self, a: f32, b: f32) -> bool {
        a <= b
    }
    fn equals(&self, a: f32, b: f32) -> bool {
        a == b
    }
    fn whole(&self, a: f32) -> usize {
        a as usize
    }
}

fn close(a: f32, b: f32) -> bool {
    (a - b).abs() < 1e-5
}

fn fresh() -> WaveMemory<f32> {
    WaveMemory::zeros(&F32, MemoryConfig { alpha: 0.5, beta: 0.75 }, 2, 3)
}

#[test]
fn a_fresh_memory_is_silent() {
    let m = fresh();
    assert_eq!((m.layers.len(), m.n_bands, m.n_convos), (2, 3, 0));
    for l in build_offsets(&F32, &m) {
        assert!(l.r.iter().chain(&l.s).all(|x| *x == 0.0));
    }
}

#[test]
fn conversations_are_merged() {
    let mut m = fresh();
    m.layers[1].s[2] = 8.0;
    // One reading has a band less than the memory; a third layer is passed over.
    let seen = vec![
        Offsets { r: vec![4.0, 8.0], s: vec![0.0, 4.0] },
        Offsets { r: vec![0.0, 0.0, 0.0], s: vec![0.0, 0.0, 4.0] },
        Offsets { r: vec![9.0], s: vec![9.0] },
    ];
    merge_ode_states(&F32, &mut m, &seen);
    assert_eq!(m.n_convos, 1);
    assert_eq!(m.layers[0].r, vec![1.0, 2.0, 0.0]);
    assert_eq!(m.layers[0].s, vec![0.0, 1.0, 0.0]);
    assert_eq!(m.layers[1].s, vec![0.0, 0.0, 7.0]);
    let o = build_offsets(&F32, &m);
    assert_eq!(o[0].r, vec![0.5, 1.0, 0.0]);
    assert_eq!(o[1].s, vec![0.0, 0.0, 3.5]);
    // A layer without a reading stays.
    let kept = m.layers[1].s.clone();
    merge_ode_states(&F32, &mut m, &vec![Offsets { r: vec![0.0; 3], s: vec![0.0; 3] }]);
    assert_eq!(m.layers[1].s, kept);
    assert_eq!(m.n_convos, 2);
}

#[test]
fn memories_are_scanned() {
    let mut m = fresh();
    m.layers[0] = Offsets { r: vec![3.0, 2.0, 0.0], s: vec![4.0, 0.0, 1.0] };
    let scans = scan_memory(&F32, &m);
    assert_eq!(scans.len(), 2);
    let s = &scans[0];
    assert_eq!((s.max_band, s.min_band), (0, 2));
    assert!(close(s.avg_magnitude, 8.0 / 3.0));
    assert!(close(s.total_energy, 30.0));
    assert_eq!(s.top_bands.iter().map(|t| t.0).collect::<Vec<_>>(), vec![0, 1, 2]);
    // Band 2 stands at a right angle to band 1.
    assert!(s.catalog_matches.iter().any(|c| c.0 == RelationType::Square));
    // Of equal bands the last is the largest, the first the smallest.
    assert_eq!((scans[1].max_band, scans[1].min_band), (2, 0));
    assert_eq!(conjunctions(&scans[1]), 3);
    assert_eq!(conjunctions(&scans[0]), 0);
}

#[test]
fn scans_are_written() {
    let t = ScanTexts {
        layer: 0,
        avg_magnitude: "1.000000".to_string(),
        total_energy: "2.000000".to_string(),
        max_band: 1,
        max_magnitude: "3.000000".to_string(),
        min_band: 0,
        min_magnitude: "0.500000".to_string(),
        top_bands: vec![(1, "3.0000".to_string()), (0, "0.5000".to_string())],
        catalog: vec![(RelationType::Trine, 2)],
    };
    let text = memory_scan_json(1, 2, 7, "0.100000", "0.900000", &vec![t]);
    assert_eq!(
        text,
        "{\n  \"n_layers\": 1,\n  \"n_bands\": 2,\n  \"n_convos\": 7,\n  \"config\": {\"alpha\": 0.100000, \"beta\": 0.900000},\n  \"layers\": [\n    {\n      \"layer\": 0,\n      \"avg_magnitude\": 1.000000,\n      \"total_energy\": 2.000000,\n      \"max_band\": 1, \"max_magnitude\": 3.000000,\n      \"min_band\": 0, \"min_magnitude\": 0.500000,\n      \"top_bands\": [[1,3.0000],[0,0.5000]],\n      \"catalog\": {\"trine\":2}\n    }\n  ]\n}\n"
    );
}
