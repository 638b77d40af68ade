//! The parity battery: one set of cases that every implementation of the derivative is
//! held against, and the report of how it did.

use vstd::prelude::*;
use vstd::string::*;
use crate::json::owned;

verus! {

/// Deterministic generator of test values.
#[derive(Clone, Copy, Debug, PartialEq, Eq, Structural)]
pub struct TestRng {
    pub state: u64,
}

/// The state that follows another: a linear congruential step.
pub open spec fn next_state(state: u64) -> u64 {
    ((state * 6364136223846793005 + 1442695040888963407) % 18446744073709551616) as u64
}

impl TestRng {
    /// Starts from a seed, made odd.
    pub fn new(seed: u64) -> (rng: Self)
        ensures
            rng.state == seed | 1,
            rng.state % 2 == 1,
    {
        assert((seed | 1) % 2 == 1) by (bit_vector);
        TestRng { state: seed | 1 }
    }

    /// The next 31 bits.
    pub fn next_bits(&mut self) -> (bits: u32)
        ensures
            final(self).state == next_state(old(self).state),
            bits == final(self).state / 8589934592,
            bits < 2147483648,
    {
        let s: u64 = self.state;
        let next: u64 = s.wrapping_mul(6364136223846793005).wrapping_add(1442695040888963407);
        proof {
            let a = s * 6364136223846793005;
            let m = 18446744073709551616int;
            assert((a % m + 1442695040888963407) % m == (a + 1442695040888963407) % m) by {
                vstd::arithmetic::div_mod::lemma_add_mod_noop(a, 1442695040888963407, m);
                vstd::arithmetic::div_mod::lemma_mod_twice(a, m);
                vstd::arithmetic::div_mod::lemma_add_mod_noop(a % m, 1442695040888963407, m);
            }
        }
        self.state = next;
        assert(next >> 33 == next / 8589934592) by (bit_vector);
        assert(next >> 33 < 2147483648) by (bit_vector);
        (next >> 33) as u32
    }
}

/// What a case starts from.
#[derive(Clone, Copy, Debug, PartialEq, Eq, Structural)]
pub enum Excitation {
    /// Nothing.
    Silence,
    /// One band at full amplitude.
    One(usize),
    /// Two bands at amplitude seven tenths.
    Two(usize, usize),
    /// Two bands at full amplitude.
    TwoFull(usize, usize),
    /// Four bands at full amplitude.
    Four(usize, usize, usize, usize),
    /// All bands at random, scaled to unit energy.
    Broadband,
    /// All bands at random, at the amplitude that training has.
    Training,
    /// All bands at random and half amplitude, from another seed.
    Scattered(u64),
}

/// A case of the battery.
#[derive(Clone, Copy)]
pub struct CasePlan {
    pub name: &'static str,
    pub n_bands: usize,
    pub excitation: Excitation,
    /// Four-wave mixing, in thousandths.
    pub chi_milli: i32,
    /// Seed of a damping profile of its own; a common damping where there is none.
    pub gamma_seed: Option<u64>,
}

/// Bands of most cases.
pub const PARITY_BANDS: usize = 84;

/// Bands of the large case.
pub const PARITY_BANDS_LARGE: usize = 168;

/// The name of case `i`.
pub open spec fn case_name(i: int) -> Seq<char> {
    if i == 0 {
        "zero_input"@
    } else if i == 1 {
        "single_band_mid_chi0"@
    } else if i == 2 {
        "single_band_mid_chi003"@
    } else if i == 3 {
        "two_band_adjacent_chi003"@
    } else if i == 4 {
        "two_band_distant_chi003"@
    } else if i == 5 {
        "broadband_unit_chi0"@
    } else if i == 6 {
        "broadband_unit_chi003"@
    } else if i == 7 {
        "broadband_training_chi003"@
    } else if i == 8 {
        "broadband_training_chi05"@
    } else if i == 9 {
        "quartet_matched"@
    } else if i == 10 {
        "quartet_unmatched"@
    } else if i == 11 {
        "learned_gamma_profile"@
    } else if i == 12 {
        "edge_bands"@
    } else if i == 13 {
        "negative_chi"@
    } else {
        "large_n_bands_168"@
    }
}

/// What case `i` starts from.
pub open spec fn case_excitation(i: int) -> Excitation {
    if i == 0 {
        Excitation::Silence
    } else if i == 1 || i == 2 {
        Excitation::One(40)
    } else if i == 3 {
        Excitation::Two(20, 21)
    } else if i == 4 {
        Excitation::Two(20, 40)
    } else if i == 5 || i == 6 || i == 13 {
        Excitation::Broadband
    } else if i == 7 || i == 8 || i == 11 {
        Excitation::Training
    } else if i == 9 {
        Excitation::Four(10, 30, 15, 25)
    } else if i == 10 {
        Excitation::Four(10, 30, 12, 25)
    } else if i == 12 {
        Excitation::TwoFull(0, 83)
    } else {
        Excitation::Scattered(77)
    }
}

/// The four-wave mixing of case `i`, in thousandths.
pub open spec fn case_chi(i: int) -> int {
    if i == 0 || i == 1 || i == 5 {
        0
    } else if i == 8 {
        500
    } else if i == 13 {
        -30
    } else {
        30
    }
}

/// The plan is case `i` of the battery.
pub open spec fn is_case(c: CasePlan, i: int) -> bool {
    &&& c.name@ == case_name(i)
    &&& c.n_bands == (if i == 14 {
        PARITY_BANDS_LARGE
    } else {
        PARITY_BANDS
    })
    &&& c.excitation == case_excitation(i)
    &&& c.chi_milli == case_chi(i)
    &&& c.gamma_seed == (if i == 11 {
        Some(123u64)
    } else {
        None
    })
}

fn case(name: &'static str, excitation: Excitation, chi_milli: i32) -> (c: CasePlan)
    ensures
        c.name == name,
        c.n_bands == PARITY_BANDS,
        c.excitation == excitation,
        c.chi_milli == chi_milli,
        c.gamma_seed is None,
{
    CasePlan { name, n_bands: PARITY_BANDS, excitation, chi_milli, gamma_seed: None }
}

/// The plans of the battery's cases, in order.
pub fn battery_plans() -> (cases: Vec<CasePlan>)
    ensures
        cases@.len() == 15,
        forall|i: int| 0 <= i < 15 ==> is_case(#[trigger] cases@[i], i),
{
    let mut learned: CasePlan = case("learned_gamma_profile", Excitation::Training, 30);
    learned.gamma_seed = Some(123);
    let mut large: CasePlan = case("large_n_bands_168", Excitation::Scattered(77), 30);
    large.n_bands = PARITY_BANDS_LARGE;
    let cases: Vec<CasePlan> = vec![
        case("zero_input", Excitation::Silence, 0),
        case("single_band_mid_chi0", Excitation::One(40), 0),
        case("single_band_mid_chi003", Excitation::One(40), 30),
        case("two_band_adjacent_chi003", Excitation::Two(20, 21), 30),
        case("two_band_distant_chi003", Excitation::Two(20, 40), 30),
        case("broadband_unit_chi0", Excitation::Broadband, 0),
        case("broadband_unit_chi003", Excitation::Broadband, 30),
        case("broadband_training_chi003", Excitation::Training, 30),
        case("broadband_training_chi05", Excitation::Training, 500),
        case("quartet_matched", Excitation::Four(10, 30, 15, 25), 30),
        case("quartet_unmatched", Excitation::Four(10, 30, 12, 25), 30),
        learned,
        case("edge_bands", Excitation::TwoFull(0, 83), 30),
        case("negative_chi", Excitation::Broadband, -30),
        large,
    ];
    cases
}

/// Every band that an excitation names exists among `n`.
pub open spec fn bands_exist(e: Excitation, n: int) -> bool {
    match e {
        Excitation::One(a) => a < n,
        Excitation::Two(a, b) | Excitation::TwoFull(a, b) => a < n && b < n,
        Excitation::Four(a, b, c, d) => a < n && b < n && c < n && d < n,
        _ => true,
    }
}

/// Every case excites bands that exist; the matched quartet is phase matched, the
/// unmatched one is not.
pub proof fn law_battery_is_sound(i: int)
    requires
        0 <= i < 15,
    ensures
        bands_exist(case_excitation(i), PARITY_BANDS as int),
        i == 9 ==> (case_excitation(i) matches Excitation::Four(a, b, c, d) && a + b == c + d),
        i == 10 ==> (case_excitation(i) matches Excitation::Four(a, b, c, d) && a + b != c + d),
{
}

/// How an implementation did on one case.
#[derive(Clone, Copy)]
pub struct CaseOutcome<E> {
    pub case_name: &'static str,
    pub within: bool,
    pub max_abs_error: E,
    pub worst_band: usize,
}

/// A case that was failed.
pub struct ParityFailure<E> {
    pub case_name: String,
    pub max_abs_error: E,
    pub worst_band: usize,
}

/// How an implementation did on the battery.
pub struct ParityReport<E> {
    pub tier: String,
    pub total_cases: usize,
    pub passed: usize,
    pub failed: Vec<ParityFailure<E>>,
}

/// The failed cases among the first `n`.
pub open spec fn failures<E>(outcomes: Seq<CaseOutcome<E>>, n: int) -> Seq<(Seq<char>, E, usize)>
    decreases n,
{
    if n <= 0 {
        Seq::empty()
    } else {
        let rest = failures(outcomes, n - 1);
        let o = outcomes[n - 1];
        if o.within {
            rest
        } else {
            rest.push((o.case_name@, o.max_abs_error, o.worst_band))
        }
    }
}

/// What a list of failures holds.
pub open spec fn failure_views<E>(f: Seq<ParityFailure<E>>) -> Seq<(Seq<char>, E, usize)> {
    f.map_values(|x: ParityFailure<E>| (x.case_name@, x.max_abs_error, x.worst_band))
}

/// Sums up how an implementation did.
pub fn sum_up<E: Copy>(tier_name: &str, outcomes: &[CaseOutcome<E>]) -> (report: ParityReport<
    E,
>)
    ensures
        report.tier@ == tier_name@,
        report.total_cases == outcomes@.len(),
        report.passed + report.failed@.len() == report.total_cases,
        failure_views(report.failed@) == failures(outcomes@, outcomes@.len() as int),
{
    let n: usize = outcomes.len();
    let mut passed: usize = 0;
    let mut failed: Vec<ParityFailure<E>> = Vec::new();
    let mut i: usize = 0;
    assert(failure_views(failed@) =~= Seq::<(Seq<char>, E, usize)>::empty());
    while i < n
        invariant
            n == outcomes@.len(),
            i <= n,
            passed + failed@.len() == i,
            failure_views(failed@) == failures(outcomes@, i as int),
        decreases n - i,
    {
        let o: CaseOutcome<E> = outcomes[i];
        if o.within {
            passed += 1;
        } else {
            let ghost before = failure_views(failed@);
            let f = ParityFailure {
                case_name: owned(o.case_name),
                max_abs_error: o.max_abs_error,
                worst_band: o.worst_band,
            };
            failed.push(f);
            assert(failure_views(failed@) =~= before.push(
                (o.case_name@, o.max_abs_error, o.worst_band),
            ));
        }
        i += 1;
    }
    ParityReport { tier: owned(tier_name), total_cases: n, passed, failed }
}

impl<E> ParityReport<E> {
    /// Whether no case was failed.
    pub fn all_passed(&self) -> (yes: bool)
        ensures
            yes == (self.failed@.len() == 0),
    {
        self.failed.len() == 0
    }
}

/// A report is clean exactly when every case was within tolerance.
pub proof fn law_clean_report_means_all_within<E>(outcomes: Seq<CaseOutcome<E>>, n: int)
    requires
        0 <= n <= outcomes.len(),
    ensures
        (failures(outcomes, n).len() == 0) == (forall|i: int|
            0 <= i < n ==> (#[trigger] outcomes[i]).within),
    decreases n,
{
    if n > 0 {
        law_clean_report_means_all_within(outcomes, n - 1);
        if failures(outcomes, n).len() == 0 {
            assert(outcomes[n - 1].within);
        }
    }
}

} // verus!
