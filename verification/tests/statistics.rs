//! Correlations, similarities and what is read off phases.

use std::f32::consts::PI;

use rustfft::num_complex::Complex;
use rustfft::FftPlanner;
use wave_engine::arith::Arith;
use wave_engine::statistics::{cosine_similarity, over_ratio, pearson_correlation};
use wave_engine::sub_harmonic::{
    budget_verdict, clustering_ratio, coupling_budget, cross_band_discrimination,
    cross_band_verdict, decay_matches, differential_phase_clustering, fft_len, intermod_input,
    intermod_peaks, intermod_spectrum, magnitude_coupling, sorted_peaks, BudgetVerdict,
};
use wave_engine::wave_analysis::{
    average_phases_over_span, band_census, best_harmonic_coherence, circular_variance,
    cluster_verdict, count_below, count_bins, cv_histogram, depth_curve, depth_verdict,
    extract_all_phases, extract_phases, grammar_coherence, harmonic_coherence, harmonic_spectrum,
    mean_resultant_length, peak_layer, phase_clustering, positive_count, semantic_discrimination,
    semantic_discrimination_spans, semantic_verdict, sorted, ClusterVerdict, DepthVerdict,
    SemanticVerdict,
};

/// Single precision.
struct F32;

impl Arith<f32> for F32 {
    fn ratio(&self, num: u64, den: u64) -> f32 {
        (num as f64 / den as f64) as f32
    }
    fn count(&self, n: usize) -> f32 {
        n as f32
    }
    fn lowest(&self) -> f32 {
        f32::NEG_INFINITY
    }
    fn plus(&self, a: f32, b: f32) -> f32 {
        a + b
    }
    fn minus(&self, a: f32, b: f32) -> f32 {
        a - b
    }
    fn times(&self, a: f32, b: f32) -> f32 {
        a * b
    }
    fn over(&self, a: f32, b: f32) -> f32 {
        a / b
    }
    fn larger(&self, a: f32, b: f32) -> f32 {
        a.max(b)
    }
    fn negated(&self, a: f32) -> f32 {
        -a
    }
    fn exp(&self, a: f32) -> f32 {
        a.exp()
    }
    fn ln(&self, a: f32) -> f32 {
        a.ln()
    }
    fn root(&self, a: f32) -> f32 {
        a.sqrt()
    }
    fn tanh(&self, a: f32) -> f32 {
        a.tanh()
    }
    fn sin(&self, a: f32) -> f32 {
        a.sin()
    }
    fn cos(&self, a: f32) -> f32 {
        a.cos()
    }
    fn abs(&self, a: f32) -> f32 {
        a.abs()
    }
    fn ceiling(&self, a: f32) -> f32 {
        a.ceil()
    }
    fn angle(&self, y: f32, x: f32) -> f32 {
        y.atan2(x)
    }
    fn rest(&self, a: f32, b: f32) -> f32 {
        a.rem_euclid(b)
    }
    fn raised(&self, a: f32, b: f32) -> f32 {
        a.powf(b)
    }
    fn power(&self, a: f32, n: usize) -> f32 {
        a.powi(n as i32)
    }
    fn pi(&self) -> f32 {
        std::f32::consts::PI
    }
    fn exceeds(&self, a: f32, b: f32) -> bool {
        a > b
    }
    fn at_most(&self, a: f32, b: f32) -> bool {
        a <= b
    }
    fn equals(&self, a: f32, b: f32) -> bool {
        a == b
    }
    fn whole(&self, a: f32) -> usize {
        a as usize
    }
}

fn close(a: f32, b: f32) -> bool {
    (a - b).abs() < 1e-5
}

#[test]
fn pearson_perfect_positive() {
    let xs = vec![1.0, 2.0, 3.0, 4.0];
    let ys = vec![2.0, 4.0, 6.0, 8.0];
    let r = pearson_correlation(&F32, &xs, &ys).unwrap();
    assert!((r - 1.0).abs() < 1e-5, "expected +1, got {}", r);
}

#[test]
fn pearson_perfect_negative() {
    let xs = vec![1.0, 2.0, 3.0, 4.0];
    let ys = vec![8.0, 6.0, 4.0, 2.0];
    let r = pearson_correlation(&F32, &xs, &ys).unwrap();
    assert!((r + 1.0).abs() < 1e-5, "expected -1, got {}", r);
}

#[test]
fn pearson_constant_series_is_none() {
    let xs = vec![1.0, 1.0, 1.0];
    let ys = vec![1.0, 2.0, 3.0];
    assert!(pearson_correlation(&F32, &xs, &ys).is_none());
}

#[test]
fn pearson_length_mismatch_is_none() {
    let xs = vec![1.0, 2.0];
    let ys = vec![1.0, 2.0, 3.0];
    assert!(pearson_correlation(&F32, &xs, &ys).is_none());
}

#[test]
fn dispersion_lies_in_range() {
    assert!(close(circular_variance(&F32, &[0.7, 0.7, 0.7]), 0.0));
    assert!(close(circular_variance(&F32, &[0.0, PI]), 1.0));
    let some = circular_variance(&F32, &[0.2, 1.9, -2.4, 0.6]);
    assert!((0.0..=1.0).contains(&some));
    assert!(close(mean_resultant_length(&F32, &[0.2, 1.9, -2.4, 0.6]), 1.0 - some));
}

#[test]
fn correlation_is_symmetric_and_bounded() {
    let xs = [0.3, -1.2, 2.5, 0.9, -0.4];
    let ys = [1.1, 0.2, -0.7, 3.0, 0.5];
    let r = pearson_correlation(&F32, &xs, &ys).unwrap();
    assert!(close(r, pearson_correlation(&F32, &ys, &xs).unwrap()));
    assert!(r.abs() <= 1.0);
    assert!(pearson_correlation(&F32, &[2.0, 2.0, 2.0], &[1.0, 2.0, 3.0]).is_none());
    assert!(pearson_correlation(&F32, &[1.0, 2.0, 3.0], &[2.0, 2.0, 2.0]).is_none());
}

#[test]
fn pearson_needs_two_entries() {
    assert!(pearson_correlation(&F32, &[1.0], &[2.0]).is_none());
    assert!(pearson_correlation(&F32, &[], &[]).is_none());
    let r = pearson_correlation(&F32, &[0.0, 1.0, 2.0], &[0.0, 1.0, 0.0]).unwrap();
    assert!(close(r, 0.0));
}

#[test]
fn similarity_of_vectors() {
    assert!(close(cosine_similarity(&F32, &[3.0, 4.0], &[4.0, 3.0]), 24.0 / 25.0));
    assert_eq!(cosine_similarity(&F32, &[0.0, 0.0], &[1.0, 0.0]), 0.0);
    // Entries that only one vector has count for its length alone.
    assert!(close(cosine_similarity(&F32, &[3.0, 4.0], &[1.0]), 3.0 / 5.0));
    assert!(close(cosine_similarity(&F32, &[1.0], &[3.0, 4.0]), 3.0 / 5.0));
    assert!(over_ratio(&F32, 0.51, 1, 2));
    assert!(!over_ratio(&F32, 0.5, 1, 2));
}

#[test]
fn coherence_of_phases() {
    assert!(close(harmonic_coherence(&F32, 0.3, 0.3, 1.0), 1.0));
    assert!(close(harmonic_coherence(&F32, 0.0, PI, 1.0), -1.0));
    assert!(close(harmonic_coherence(&F32, 0.0, PI, 2.0), 1.0));
    let phases = extract_phases(&F32, &[1.0, 0.0, 0.0, 2.0, -1.0, 0.0], 3);
    assert!(close(phases[0], 0.0) && close(phases[1], PI / 2.0) && close(phases[2], PI));
    let all = extract_all_phases(&F32, &vec![vec![0.0, 1.0], vec![1.0, 1.0]], 1);
    assert!(close(all[0][0], PI / 2.0) && close(all[1][0], PI / 4.0));
}

#[test]
fn dispersion_of_phases() {
    assert!(close(circular_variance(&F32, &[0.5, 0.5, 0.5]), 0.0));
    assert!(close(circular_variance(&F32, &[0.0, PI]), 1.0));
    assert_eq!(circular_variance(&F32, &[]), 1.0);
    assert!(close(mean_resultant_length(&F32, &[0.0, PI / 2.0]), 0.5f32.sqrt()));
    let spread = vec![vec![0.0, 0.1], vec![PI, 0.1]];
    assert!(close(phase_clustering(&F32, &spread, 2), 0.5));
}

#[test]
fn spectra_of_phases() {
    let a = vec![0.0, 0.0];
    let b = vec![PI, PI];
    let s = harmonic_spectrum(&F32, &a, &b, 4);
    assert_eq!(s.len(), 4);
    assert!(close(s[0], -1.0) && close(s[1], 1.0) && close(s[2], -1.0) && close(s[3], 1.0));
    // Without sign the first harmonic is as good as any, and the first best one counts.
    let (best, n) = best_harmonic_coherence(&F32, &a, &b, 4);
    assert!(close(best, 1.0));
    assert_eq!(n, 1);
    let (none, at) = best_harmonic_coherence(&F32, &a, &b, 0);
    assert_eq!((none, at), (0.0, 1));
    let span = average_phases_over_span(&F32, &vec![vec![0.0], vec![PI / 2.0]], &vec![0, 1]);
    assert!(close(span[0], PI / 4.0));
    let one = average_phases_over_span(&F32, &vec![vec![0.3], vec![0.7]], &vec![1]);
    assert_eq!(one, vec![0.7]);
}

#[test]
fn discrimination_of_pairs() {
    let phases = vec![vec![0.0, 0.0], vec![0.0, 0.0], vec![PI / 2.0, 0.0]];
    let r = semantic_discrimination(&F32, &phases, &[(0, 1)], &[(0, 2)], 1);
    assert!(close(r.related_mean, 1.0));
    assert!(close(r.random_mean, 0.5));
    assert!(close(r.ratio, 2.0));
    let spans = semantic_discrimination_spans(
        &F32,
        &phases,
        &vec![(vec![0], vec![1])],
        &vec![(vec![0], vec![2])],
        1,
    );
    assert!(close(spans.ratio, 2.0));
    let curve = depth_curve(&F32, &vec![phases.clone(), phases.clone()], &[(0, 1)], &[(0, 2)], 1);
    assert!(curve.len() == 2 && close(curve[0], 2.0));
    let g = grammar_coherence(&F32, &phases, &phases, &[(0, 1)], &[(0, 1)], 2);
    assert!(close(g, 1.0));
    assert_eq!(peak_layer(&F32, &vec![0.1, 0.9, 0.9, 0.2]), 2);
}

#[test]
fn census_divides_bands() {
    // Band 0 never varies, band 1 is uniform.
    let phases = vec![vec![0.2, 0.0], vec![0.2, PI], vec![0.2, 0.0], vec![0.2, PI]];
    let c = band_census(&F32, &phases, 2);
    assert_eq!(c.universal + c.word_specific, 2);
    assert_eq!(c.universal, 1);
    let rows = cv_histogram(&F32, &vec![0.0, 0.0, 1.0], 2);
    assert_eq!(rows.iter().map(|r| r.count).sum::<usize>(), 3);
    assert_eq!(rows[0].count, 2);
    assert_eq!(sorted(&F32, &vec![3.0, 1.0, 2.0]), vec![1.0, 2.0, 3.0]);
    assert_eq!(count_below(&F32, 2.5, &vec![1.0, 2.0, 3.0]), 2);
    assert_eq!(count_bins(&F32, &vec![0.0, 0.1, 0.9], 0.0, 0.5, 2), vec![2, 1]);
}

#[test]
fn verdicts_on_learning() {
    assert_eq!(semantic_verdict(&F32, 2.1), SemanticVerdict::Strong);
    assert_eq!(semantic_verdict(&F32, 1.6), SemanticVerdict::Emerging);
    assert_eq!(semantic_verdict(&F32, 1.0), SemanticVerdict::NotYet);
    assert_eq!(depth_verdict(4, 4), DepthVerdict::MostLayers);
    assert_eq!(depth_verdict(3, 4), DepthVerdict::HalfDepth);
    assert_eq!(depth_verdict(2, 4), DepthVerdict::Shallow);
    assert_eq!(cluster_verdict(&F32, 0.9), ClusterVerdict::Structured);
    assert_eq!(cluster_verdict(&F32, 0.0), ClusterVerdict::Random);
    let all = positive_count(&F32, 2.0, 3, 4, 20, 40, 0.9);
    let none = positive_count(&F32, 0.5, 0, 4, 0, 40, 0.0);
    assert!(all > none);
    assert!(all <= 4);
}

#[test]
fn bands_between_bands() {
    // Neighbours that keep the same distance at every position cluster perfectly.
    let states = vec![vec![1.0, 0.0, 0.0, 1.0], vec![0.0, 1.0, -1.0, 0.0]];
    assert!(close(differential_phase_clustering(&F32, &states, 2), 1.0));
    let m = vec![
        vec![1.0, 0.0, 2.0, 0.0],
        vec![2.0, 0.0, 4.0, 0.0],
        vec![3.0, 0.0, 6.0, 0.0],
    ];
    let c = magnitude_coupling(&F32, &m, 2);
    assert!(close(c.coupling_decay[0], 1.0));
    assert_eq!((c.max_pair.0, c.max_pair.1), (0, 1));
    let b = coupling_budget(&F32, &m, 2, 0.1, 0.2);
    assert!(b.cross_self_ratio > 0.0);
    assert_eq!(budget_verdict(&F32, 1.5), BudgetVerdict::Neighbours);
    assert_eq!(budget_verdict(&F32, 0.7), BudgetVerdict::Balanced);
    assert_eq!(budget_verdict(&F32, 0.1), BudgetVerdict::Independent);
    assert!(close(clustering_ratio(&F32, 0.5, 0.25), 2.0));
    assert!(decay_matches(&F32, &vec![0.9, 0.5, 0.1]));
    assert!(!decay_matches(&F32, &vec![0.1, 0.5, 0.9]));
    assert!(!decay_matches(&F32, &vec![0.9, 0.5]));
    let d = cross_band_discrimination(&F32, &m, &[(0, 1)], &[(0, 2)], 2);
    let _ = cross_band_verdict(&F32, &d);
}

#[test]
fn spectrum_of_the_profile() {
    assert_eq!(fft_len(1), 1);
    assert_eq!(fft_len(5), 8);
    assert_eq!(fft_len(8), 8);
    assert_eq!(fft_len(0), 1);
    assert_eq!(fft_len(usize::MAX / 2 + 1), usize::MAX / 2 + 1);
    let input = intermod_input(&F32, &vec![vec![3.0, 4.0, 0.0, 1.0, 1.0, 0.0]], 3);
    assert_eq!(input.len(), 4);
    assert_eq!(input[3], 0.0);
    let re = vec![9.0, 1.0, 3.0, 0.0, 0.0, 0.0, 0.0, 0.0];
    let peaks = intermod_peaks(&F32, &re, &vec![0.0; 8]);
    assert_eq!(peaks.dominant_period, 2);
    assert_eq!(peaks.spectral_peaks.len(), 3);
    assert!(close(peaks.spectral_peaks[0].1, 0.9));
    assert_eq!(sorted_peaks(&F32, &vec![1.0, 3.0, 2.0], 0), vec![(1, 3.0), (2, 2.0), (0, 1.0)]);
}

#[test]
fn spectra_come_from_the_transform() {
    // Four bands whose magnitudes alternate: all power lies at the highest frequency, which
    // the lower half does not reach, so the one share below it is nothing.
    let states: Vec<Vec<f32>> = vec![vec![1.0, 0.0, 3.0, 0.0, 1.0, 0.0, 3.0, 0.0]];
    let fft = |x: &Vec<f32>| {
        let mut points: Vec<Complex<f32>> = x.iter().map(|v| Complex::new(*v, 0.0)).collect();
        FftPlanner::new().plan_fft_forward(points.len()).process(&mut points);
        let re: Vec<f32> = points.iter().map(|c| c.re).collect();
        let im: Vec<f32> = points.iter().map(|c| c.im).collect();
        (re, im)
    };
    let out = intermod_spectrum(&F32, &states, 4, fft);
    assert_eq!(out.spectral_peaks.len(), 1);
    assert_eq!(out.dominant_period, 1);
    assert!(out.spectral_peaks[0].1.abs() < 1e-6);
    // Eight bands in one full wave: all power lies at the first frequency.
    let wave: Vec<f32> = (0..8)
        .flat_map(|k| [2.0 + (k as f32 * std::f32::consts::PI / 4.0).cos(), 0.0])
        .collect();
    let out = intermod_spectrum(&F32, &vec![wave], 8, fft);
    assert_eq!(out.dominant_period, 1);
    assert!(close(out.spectral_peaks[0].1, 1.0));
    assert!(out.spectral_entropy < 0.01);
}
