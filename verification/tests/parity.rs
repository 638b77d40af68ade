//! The parity battery.

use wave_engine::arith::Arith;
use wave_engine::kerr::kerr_derivative;
use wave_engine::parity::{battery_plans, sum_up, CaseOutcome, Excitation, TestRng};
use wave_engine::parity_cases::{
    case_outcome, check_parity, generate_parity_battery, make_case, ParityCase,
};

/// Single precision.
struct F32;

impl Arith<f32> for F32 {
    fn ratio(&self, num: u64, den: u64) -> f32 {
        (num as f64 / den as f64) as f32
    }
    fn count(&self, n: usize) -> f32 {
        n as f32
    }
    fn lowest(&self) -> f32 {
        f32::NEG_INFINITY
    }
    fn plus(&self, a: f32, b: f32) -> f32 {
        a + b
    }
    fn minus(&self, a: f32, b: f32) -> f32 {
        a - b
    }
    fn times(&self, a: f32, b: f32) -> f32 {
        a * b
    }
    fn over(&self, a: f32, b: f32) -> f32 {
        a / b
    }
    fn larger(&self, a: f32, b: f32) -> f32 {
        a.max(b)
    }
    fn negated(&self, a: f32) -> f32 {
        -a
    }
    fn exp(&self, a: f32) -> f32 {
        a.exp()
    }
    fn ln(&self, a: f32) -> f32 {
        a.ln()
    }
    fn root(&self, a: f32) -> f32 {
        a.sqrt()
    }
    fn tanh(&self, a: f32) -> f32 {
        a.tanh()
    }
    fn sin(&self, a: f32) -> f32 {
        a.sin()
    }
    fn cos(&self, a: f32) -> f32 {
        a.cos()
    }
    fn abs(&self, a: f32) -> f32 {
        a.abs()
    }
    fn ceiling(&self, a: f32) -> f32 {
        a.ceil()
    }
    fn angle(&self, y: f32, x: f32) -> f32 {
        y.atan2(x)
    }
    fn rest(&self, a: f32, b: f32) -> f32 {
        a.rem_euclid(b)
    }
    fn raised(&self, a: f32, b: f32) -> f32 {
        a.powf(b)
    }
    fn power(&self, a: f32, n: usize) -> f32 {
        a.powi(n as i32)
    }
    fn pi(&self) -> f32 {
        std::f32::consts::PI
    }
    fn exceeds(&self, a: f32, b: f32) -> bool {
        a > b
    }
    fn at_most(&self, a: f32, b: f32) -> bool {
        a <= b
    }
    fn equals(&self, a: f32, b: f32) -> bool {
        a == b
    }
    fn whole(&self, a: f32) -> usize {
        a as usize
    }
}

fn reference(case: &ParityCase<f32>) -> (Vec<f32>, Vec<f32>) {
    kerr_derivative(
        &F32,
        &case.r_in,
        &case.s_in,
        &case.gamma,
        &case.omega,
        case.alpha,
        case.beta,
        case.chi,
    )
}

#[test]
fn test_battery_self_consistency() {
    let battery = generate_parity_battery(&F32);
    let report = check_parity(&F32, "cpu_self", &battery, reference, 0.0);
    assert_eq!(report.tier, "cpu_self");
    assert_eq!(report.total_cases, 15);
    assert_eq!(report.passed, 15);
    assert!(
        report.all_passed(),
        "CPU self-consistency failed — battery generator is broken"
    );
}

#[test]
fn a_wrong_rate_is_found() {
    let battery = generate_parity_battery(&F32);
    let report = check_parity(
        &F32,
        "off",
        &battery,
        |case| {
            let (mut dr, ds) = reference(case);
            if case.name == "edge_bands" {
                dr[7] += 0.5;
            }
            (dr, ds)
        },
        1e-3,
    );
    assert!(!report.all_passed());
    assert_eq!(report.passed, 14);
    assert_eq!(report.failed.len(), 1);
    assert_eq!(report.failed[0].case_name, "edge_bands");
    assert_eq!(report.failed[0].worst_band, 7);
    assert!((report.failed[0].max_abs_error - 0.5).abs() < 1e-6);
}

#[test]
fn cases_start_as_planned() {
    let battery = generate_parity_battery(&F32);
    assert_eq!(battery[0].name, "zero_input");
    assert!(battery[0].expected_dr.iter().all(|x| *x == 0.0));
    assert!(battery[0].expected_ds.iter().all(|x| *x == 0.0));
    assert_eq!(battery[1].r_in[40], 1.0);
    assert_eq!(battery[1].r_in.iter().filter(|x| **x != 0.0).count(), 1);
    assert_eq!(battery[3].r_in[20], 0.7);
    assert_eq!(battery[3].r_in[21], 0.7);
    assert_eq!(battery[3].chi, 0.03);
    assert_eq!(battery[13].chi, -0.03);
    assert_eq!(battery[8].chi, 0.5);
    assert_eq!(battery[14].n_bands, 168);
    for c in &battery {
        assert!((c.gamma[0] - 0.1).abs() < 1e-5 || c.name == "learned_gamma_profile");
        assert_eq!(c.expected_dr.len(), c.n_bands);
    }
    // A random state of unit length.
    let energy: f32 = battery[5].r_in.iter().chain(&battery[5].s_in).map(|x| x * x).sum();
    assert!((energy - 1.0).abs() < 1e-5);
    let louder: f32 = battery[7].r_in.iter().chain(&battery[7].s_in).map(|x| x * x).sum();
    assert!((louder - 1.3 * 1.3 * 84.0).abs() < 1e-2);
}

#[test]
fn quartets_of_the_battery() {
    let plans = battery_plans();
    let matched = |e: Excitation| match e {
        Excitation::Four(a, b, c, d) => a + b == c + d,
        _ => false,
    };
    assert!(matched(plans[9].excitation));
    assert!(!matched(plans[10].excitation));
    let case = make_case(&F32, &plans[9]);
    assert_eq!(case.r_in[10] + case.r_in[30] + case.r_in[15] + case.r_in[25], 4.0);
}

#[test]
fn the_generator_is_fixed() {
    let mut rng = TestRng::new(42);
    assert_eq!(rng.state, 43);
    let first = rng.next_value(&F32);
    let state = 43u64.wrapping_mul(6364136223846793005).wrapping_add(1442695040888963407);
    assert_eq!(rng.state, state);
    assert_eq!(first, ((state >> 33) as f32 / (1u64 << 31) as f32) * 2.0 - 1.0);
    let bits = rng.next_bits();
    assert!(bits < 1 << 31);
}

#[test]
fn outcomes_are_summed_up() {
    let ok = CaseOutcome { case_name: "a", within: true, max_abs_error: 0.0f32, worst_band: 0 };
    let bad = CaseOutcome { case_name: "b", within: false, max_abs_error: 2.0, worst_band: 3 };
    let report = sum_up("t", &[ok, bad]);
    assert_eq!((report.passed, report.total_cases), (1, 2));
    assert_eq!(report.failed[0].case_name, "b");
    let battery = generate_parity_battery(&F32);
    let (dr, ds) = reference(&battery[4]);
    let o = case_outcome(&F32, &battery[4], &dr, &ds, 0.0);
    assert!(o.within && o.max_abs_error == 0.0 && o.worst_band == 0);
}
