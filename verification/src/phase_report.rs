//! What a model makes of encoded states: which relationships their bands stand in, how far
//! they drift, how their energies change, and how two outputs are related.

use vstd::prelude::*;
use crate::arith::{Arith, Test, Traced, TracedVec, build, holds, pick_on, total};
#[allow(unused_imports)]
use crate::arith::{
    Expr, Unary, angle, entry, fits, fits_all, larger, minus, one, over, pick, plus, rest, test_is,
    times, total_of, un, val, vals, zero,
};
use crate::coherence::{mags_on, phases_on};
#[allow(unused_imports)]
use crate::coherence::{mags_of, phases_of};
use crate::encode::{catalog_distribution, pairs};
#[allow(unused_imports)]
use crate::encode::{counts, listed, matches_of, pair_rows, ranked};
use crate::layers::{layer_norm, mean_on, sums_on, traced};
#[allow(unused_imports)]
use crate::layers::{mean_of, norm_of, sums_of};
use crate::ode_distortion::count_over;
#[allow(unused_imports)]
use crate::ode_distortion::counts_over;
use crate::ode_monitor::energies_on;
#[allow(unused_imports)]
use crate::ode_monitor::energies_of;
use crate::phase_state::{degrees_on, match_catalog, match_from, turn_on};
#[allow(unused_imports)]
use crate::phase_state::{degrees_of, matched, turn};
use crate::relations::{CatalogEntry, RelationType, catalog};
use crate::seqs::extend_from;
use crate::statistics::{over_ratio, similarity_on};
#[allow(unused_imports)]
use crate::statistics::{exceeds_ratio, similarity_of};
use crate::sub_harmonic::{cosines_on, sines_on};
#[allow(unused_imports)]
use crate::sub_harmonic::turned;
use crate::json::owned;
use crate::wave_model::WavePacketModel;

verus! {

/// Phase and magnitude of a band.
pub struct BandInfo<T> {
    pub index: usize,
    pub phase: T,
    pub magnitude: T,
}

/// Bands tell the phases and magnitudes of a state.
pub open spec fn bands_tell<T: Copy, A: Arith<T>>(
    ops: A,
    x: Seq<Expr<T>>,
    n: int,
    bands: Seq<BandInfo<T>>,
) -> bool {
    &&& bands.len() == n
    &&& forall|k: int|
        0 <= k < n ==> {
            &&& (#[trigger] bands[k]).index == k
            &&& fits(ops, phases_of(x, n)[k], bands[k].phase)
            &&& fits(ops, mags_of(x, n)[k], bands[k].magnitude)
        }
}

/// The phase and the magnitude of every band of a state.
pub fn extract_bands<T: Copy, A: Arith<T>>(ops: &A, state: &[T]) -> (bands: Vec<BandInfo<T>>)
    ensures
        bands_tell(*ops, vals(state@), state@.len() as int / 2, bands@),
{
    let n: usize = state.len() / 2;
    let x: TracedVec<T> = traced(ops, state);
    let phases: TracedVec<T> = phases_on(ops, &x, n);
    let mags: TracedVec<T> = mags_on(ops, &x, n);
    let mut bands: Vec<BandInfo<T>> = Vec::new();
    let mut k: usize = 0;
    while k < n
        invariant
            k <= n,
            phases.ok(*ops),
            mags.ok(*ops),
            phases.v@.len() == n,
            mags.v@.len() == n,
            phases.e@ == phases_of(x.e@, n as int),
            mags.e@ == mags_of(x.e@, n as int),
            bands@.len() == k,
            forall|j: int|
                0 <= j < k ==> {
                    &&& (#[trigger] bands@[j]).index == j
                    &&& fits(*ops, phases_of(x.e@, n as int)[j], bands@[j].phase)
                    &&& fits(*ops, mags_of(x.e@, n as int)[j], bands@[j].magnitude)
                },
        decreases n - k,
    {
        let p: Traced<T> = phases.get(ops, k);
        let m: Traced<T> = mags.get(ops, k);
        bands.push(BandInfo { index: k, phase: p.v, magnitude: m.v });
        k += 1;
    }
    bands
}

/// Two bands that stand in a relationship.
#[derive(Clone, Copy)]
pub struct CatalogMatch<T> {
    pub band_a: usize,
    pub band_b: usize,
    pub angle_deg: T,
    pub rel_type: RelationType,
    pub drift_deg: T,
}

/// The angle from band `p.0` to band `p.1` in degrees.
pub open spec fn pair_angle<T>(phases: Seq<Expr<T>>, p: (usize, usize)) -> Expr<T> {
    degrees_of(rest(minus(phases[p.1 as int], phases[p.0 as int]), turn()))
}

/// The relationships of the first `n` pairs of bands, in the order of the pairs.
pub open spec fn found<T: Copy, A: Arith<T>>(
    ops: A,
    phases: Seq<Expr<T>>,
    folded: bool,
    pairs: Seq<(usize, usize)>,
    n: int,
    list: Seq<CatalogMatch<T>>,
) -> bool
    decreases n,
{
    if n <= 0 {
        list.len() == 0
    } else {
        exists|deg: T, out: Option<(RelationType, T)>|
            {
                &&& #[trigger] matched(ops, deg, folded, 0, out)
                &&& fits(ops, pair_angle(phases, pairs[n - 1]), deg)
                &&& match out {
                    Some(m) => {
                        &&& list.len() > 0
                        &&& list.last() == (CatalogMatch {
                            band_a: pairs[n - 1].0,
                            band_b: pairs[n - 1].1,
                            angle_deg: deg,
                            rel_type: m.0,
                            drift_deg: m.1,
                        })
                        &&& found(ops, phases, folded, pairs, n - 1, list.drop_last())
                    },
                    None => found(ops, phases, folded, pairs, n - 1, list),
                }
            }
    }
}

/// The pairs of bands that stand in a relationship, traced.
pub fn matches_on<T: Copy, A: Arith<T>>(ops: &A, phases: &TracedVec<T>, folded: bool) -> (list: Vec<
    CatalogMatch<T>,
>)
    requires
        phases.ok(*ops),
    ensures
        ({
            let n = phases.v@.len() as int;
            found(*ops, phases.e@, folded, pair_rows(n, n), pair_rows(n, n).len() as int, list@)
        }),
{
    let n: usize = phases.len();
    let ps: Vec<(usize, usize)> = pairs(n);
    let m: usize = ps.len();
    let entries: Vec<CatalogEntry> = catalog();
    let whole: Traced<T> = turn_on(ops);
    let mut list: Vec<CatalogMatch<T>> = Vec::new();
    let mut i: usize = 0;
    while i < m
        invariant
            phases.ok(*ops),
            n == phases.v@.len(),
            ps@ == pair_rows(n as int, n as int),
            m == ps@.len(),
            i <= m,
            entries@ == Seq::new(11, |i: int| crate::relations::entry(i)),
            whole.ok(*ops),
            whole.e@ == turn::<T>(),
            found(*ops, phases.e@, folded, ps@, i as int, list@),
        decreases m - i,
    {
        proof {
            lemma_pairs_in_range(n as int, n as int, i as int);
        }
        let (a, b): (usize, usize) = ps[i];
        let deg: Traced<T> = degrees_on(
            ops,
            phases.get(ops, b).minus(ops, phases.get(ops, a)).rest(ops, whole),
        );
        let out: Option<(RelationType, T)> = match_from(ops, deg.v, folded, &entries, 0);
        let ghost before = list@;
        match out {
            Some(m) => {
                list.push(
                    CatalogMatch {
                        band_a: a,
                        band_b: b,
                        angle_deg: deg.v,
                        rel_type: m.0,
                        drift_deg: m.1,
                    },
                );
                assert(list@.drop_last() =~= before);
            },
            None => {},
        }
        i += 1;
        assert(matched(*ops, deg.v, folded, 0, out));
    }
    list
}

/// The bands of a pair exist.
pub proof fn lemma_pairs_in_range(n: int, rows: int, i: int)
    requires
        0 <= rows <= n <= usize::MAX,
        0 <= i < pair_rows(n, rows).len(),
    ensures
        pair_rows(n, rows)[i].0 < pair_rows(n, rows)[i].1 < n,
    decreases rows,
{
    if rows > 0 {
        let before = pair_rows(n, rows - 1);
        if i < before.len() {
            lemma_pairs_in_range(n, rows - 1, i);
        }
    }
}

/// All pairs of bands of a state that stand in a relationship.
pub fn find_catalog_matches<T: Copy, A: Arith<T>>(ops: &A, state: &[T]) -> (list: Vec<CatalogMatch<T>>)
    ensures
        ({
            let n = state@.len() as int / 2;
            found(
                *ops,
                phases_of(vals(state@), n),
                false,
                pair_rows(n, n),
                pair_rows(n, n).len() as int,
                list@,
            )
        }),
{
    let n: usize = state.len() / 2;
    matches_on(ops, &phases_on(ops, &traced(ops, state), n), false)
}

/// What became of a band.
#[derive(Clone, Copy)]
pub struct BandDelta<T> {
    pub index: usize,
    pub input_phase: T,
    pub output_phase: T,
    pub phase_drift_deg: T,
    pub input_mag: T,
    pub output_mag: T,
    pub mag_ratio: T,
}

/// How far the phase of a band drifted: between minus and plus a half turn, in degrees.
pub open spec fn drift_of<T>(from: Expr<T>, to: Expr<T>) -> Expr<T> {
    let d = rest(minus(to, from), turn());
    degrees_of(pick(Test::Exceeds, d, Expr::Pi, minus(d, turn()), d))
}

/// How much larger a magnitude became.
pub open spec fn growth_of<T>(from: Expr<T>, to: Expr<T>) -> Expr<T> {
    over(to, larger(from, Expr::Ratio(1, 100000000)))
}

/// A band's entry of a comparison.
pub open spec fn delta_fits<T: Copy, A: Arith<T>>(
    ops: A,
    x: Seq<Expr<T>>,
    y: Seq<Expr<T>>,
    k: int,
    d: BandDelta<T>,
) -> bool {
    let (px, py) = (angle(x[2 * k + 1], x[2 * k]), angle(y[2 * k + 1], y[2 * k]));
    let mx = mags_of(x, k + 1)[k];
    let my = mags_of(y, k + 1)[k];
    &&& d.index == k
    &&& fits(ops, px, d.input_phase)
    &&& fits(ops, py, d.output_phase)
    &&& fits(ops, drift_of(px, py), d.phase_drift_deg)
    &&& fits(ops, mx, d.input_mag)
    &&& fits(ops, my, d.output_mag)
    &&& fits(ops, growth_of(mx, my), d.mag_ratio)
}

/// What changed between an input and an output.
pub struct ComparisonReport<T> {
    pub per_band: Vec<BandDelta<T>>,
    pub cos_similarity: T,
    pub injected_matches: Vec<CatalogMatch<T>>,
    pub output_matches: Vec<CatalogMatch<T>>,
}

fn deltas_on<T: Copy, A: Arith<T>>(ops: &A, x: &TracedVec<T>, y: &TracedVec<T>, n: usize) -> (out: Vec<
    BandDelta<T>,
>)
    requires
        x.ok(*ops),
        y.ok(*ops),
        2 * n <= x.v@.len(),
        2 * n <= y.v@.len(),
    ensures
        out@.len() == n,
        forall|k: int| 0 <= k < n ==> delta_fits(*ops, x.e@, y.e@, k, #[trigger] out@[k]),
{
    let px: TracedVec<T> = phases_on(ops, x, n);
    let py: TracedVec<T> = phases_on(ops, y, n);
    let mx: TracedVec<T> = mags_on(ops, x, n);
    let my: TracedVec<T> = mags_on(ops, y, n);
    let whole: Traced<T> = turn_on(ops);
    let eps: Traced<T> = Traced::ratio(ops, 1, 100000000);
    let mut out: Vec<BandDelta<T>> = Vec::new();
    let mut k: usize = 0;
    while k < n
        invariant
            k <= n,
            px.ok(*ops),
            py.ok(*ops),
            mx.ok(*ops),
            my.ok(*ops),
            px.v@.len() == n,
            py.v@.len() == n,
            mx.v@.len() == n,
            my.v@.len() == n,
            px.e@ == phases_of(x.e@, n as int),
            py.e@ == phases_of(y.e@, n as int),
            mx.e@ == mags_of(x.e@, n as int),
            my.e@ == mags_of(y.e@, n as int),
            whole.ok(*ops),
            whole.e@ == turn::<T>(),
            eps.ok(*ops),
            eps.e@ == Expr::<T>::Ratio(1, 100000000),
            out@.len() == k,
            forall|j: int| 0 <= j < k ==> delta_fits(*ops, x.e@, y.e@, j, #[trigger] out@[j]),
        decreases n - k,
    {
        let (p, q): (Traced<T>, Traced<T>) = (px.get(ops, k), py.get(ops, k));
        let (m, o): (Traced<T>, Traced<T>) = (mx.get(ops, k), my.get(ops, k));
        let d: Traced<T> = q.minus(ops, p).rest(ops, whole);
        let drift: Traced<T> = pick_on(
            ops,
            Test::Exceeds,
            d,
            Traced::pi(ops),
            d.minus(ops, whole),
            d,
        );
        let delta: BandDelta<T> = BandDelta {
            index: k,
            input_phase: p.v,
            output_phase: q.v,
            phase_drift_deg: degrees_on(ops, drift).v,
            input_mag: m.v,
            output_mag: o.v,
            mag_ratio: o.over(ops, m.larger(ops, eps)).v,
        };
        out.push(delta);
        k += 1;
    }
    out
}

/// Compares an output with its input, band by band, and lists the relationships in both.
pub fn compare_states<T: Copy, A: Arith<T>>(ops: &A, input: &[T], output: &[T]) -> (report:
    ComparisonReport<T>)
    requires
        input@.len() as int / 2 <= output@.len() as int / 2,
    ensures
        report.per_band@.len() == input@.len() as int / 2,
        forall|k: int|
            0 <= k < report.per_band@.len() ==> delta_fits(
                *ops,
                vals(input@),
                vals(output@),
                k,
                #[trigger] report.per_band@[k],
            ),
        fits(*ops, similarity_of(vals(input@), vals(output@)), report.cos_similarity),
        ({
            let n = input@.len() as int / 2;
            let ps = pair_rows(n, n);
            found(
                *ops,
                phases_of(vals(input@), n),
                false,
                ps,
                ps.len() as int,
                report.injected_matches@,
            )
        }),
        ({
            let n = output@.len() as int / 2;
            let ps = pair_rows(n, n);
            found(
                *ops,
                phases_of(vals(output@), n),
                false,
                ps,
                ps.len() as int,
                report.output_matches@,
            )
        }),
{
    let n: usize = input.len() / 2;
    let olen: usize = output.len();
    let x: TracedVec<T> = traced(ops, input);
    let y: TracedVec<T> = traced(ops, output);
    ComparisonReport {
        per_band: deltas_on(ops, &x, &y, n),
        cos_similarity: similarity_on(ops, &x, &y).v,
        injected_matches: find_catalog_matches(ops, input),
        output_matches: find_catalog_matches(ops, output),
    }
}

/// How much every band's magnitude grew.
pub open spec fn growths_of<T>(x: Seq<Expr<T>>, y: Seq<Expr<T>>, n: int) -> Seq<Expr<T>> {
    Seq::new(n as nat, |k: int| growth_of(mags_of(x, n)[k], mags_of(y, n)[k]))
}

fn growths_on<T: Copy, A: Arith<T>>(ops: &A, x: &TracedVec<T>, y: &TracedVec<T>, n: usize) -> (out:
    TracedVec<T>)
    requires
        x.ok(*ops),
        y.ok(*ops),
        2 * n <= x.v@.len(),
        2 * n <= y.v@.len(),
    ensures
        out.ok(*ops),
        out.v@.len() == n,
        out.e@ == growths_of(x.e@, y.e@, n as int),
{
    let mx: TracedVec<T> = mags_on(ops, x, n);
    let my: TracedVec<T> = mags_on(ops, y, n);
    let f = |k: usize| -> (r: Traced<T>)
        requires
            k < n,
        ensures
            r.ok(*ops),
            r.e@ == entry(growths_of(x.e@, y.e@, n as int), k),
    {
        my.get(ops, k).over(ops, mx.get(ops, k).larger(ops, Traced::ratio(ops, 1, 100000000)))
    };
    build(ops, n, Ghost(growths_of(x.e@, y.e@, n as int)), f)
}

/// How much every band's magnitude grew from an input to its output: where the phases tell
/// where a token went, this tells how much of it.
pub fn deformation_vector<T: Copy, A: Arith<T>>(ops: &A, input: &[T], output: &[T]) -> (out: Vec<T>)
    requires
        input@.len() as int / 2 <= output@.len() as int / 2,
    ensures
        fits_all(
            *ops,
            growths_of(vals(input@), vals(output@), input@.len() as int / 2),
            out@,
        ),
{
    let n: usize = input.len() / 2;
    let olen: usize = output.len();
    growths_on(ops, &traced(ops, input), &traced(ops, output), n).v
}

/// How alike two deformations are: the cosine between them.
pub fn deformation_similarity<T: Copy, A: Arith<T>>(ops: &A, a: &[T], b: &[T]) -> (out: T)
    ensures
        fits(*ops, similarity_of(vals(a@), vals(b@)), out),
{
    similarity_on(ops, &traced(ops, a), &traced(ops, b)).v
}

/// The first entry of the first `n` that goes beyond all before it and `start`: its place, if
/// there is one, and its value. Beyond is above where `rising`, else below.
pub open spec fn extreme<T: Copy, A: Arith<T>>(
    ops: A,
    start: T,
    xs: Seq<T>,
    n: int,
    rising: bool,
    at: Option<usize>,
    v: T,
) -> bool
    decreases n,
{
    if n <= 0 {
        at is None && v == start
    } else {
        exists|held: (Option<usize>, T), beyond: bool|
            {
                &&& extreme(ops, start, xs, n - 1, rising, held.0, held.1)
                &&& #[trigger] goes_beyond(ops, xs[n - 1], held.1, rising, beyond)
                &&& if beyond {
                    at == Some((n - 1) as usize) && v == xs[n - 1]
                } else {
                    at == held.0 && v == held.1
                }
            }
    }
}

/// Whether `x` lies beyond `held` came out as `c`.
pub open spec fn goes_beyond<T: Copy, A: Arith<T>>(
    ops: A,
    x: T,
    held: T,
    rising: bool,
    c: bool,
) -> bool {
    if rising {
        test_is(ops, Test::Exceeds, x, held, c)
    } else {
        test_is(ops, Test::Exceeds, held, x, c)
    }
}

/// A place counted from zero; zero where there is none.
pub open spec fn place(at: Option<usize>) -> usize {
    match at {
        Some(i) => i,
        None => 0,
    }
}

/// The entry that goes farthest beyond `start`.
pub fn extreme_of<T: Copy, A: Arith<T>>(ops: &A, start: T, xs: &Vec<T>, rising: bool) -> (res: (
    Option<usize>,
    T,
))
    ensures
        extreme(*ops, start, xs@, xs@.len() as int, rising, res.0, res.1),
        res.0 matches Some(i) ==> i < xs@.len(),
{
    let n: usize = xs.len();
    let mut v: T = start;
    let mut at: Option<usize> = None;
    let mut i: usize = 0;
    while i < n
        invariant
            n == xs@.len(),
            i <= n,
            extreme(*ops, start, xs@, i as int, rising, at, v),
            at matches Some(j) ==> j < i,
        decreases n - i,
    {
        let ghost held = (at, v);
        let beyond: bool = if rising {
            holds(ops, Test::Exceeds, xs[i], v)
        } else {
            holds(ops, Test::Exceeds, v, xs[i])
        };
        if beyond {
            v = xs[i];
            at = Some(i);
        }
        i += 1;
        assert(goes_beyond(*ops, xs@[i - 1], held.1, rising, beyond));
    }
    (at, v)
}

/// What a model does to the energy of a token.
pub struct EnergyProfile<T> {
    pub label: String,
    pub deformation: Vec<T>,
    pub total_energy_ratio: T,
    pub peak_band: usize,
    pub peak_ratio: T,
    pub damp_band: usize,
    pub damp_ratio: T,
}

/// The profile says how the energy of `x` became that of `y`. The most amplified band is
/// sought from zero up, the most damped one from `top` down.
pub open spec fn profile_fits<T: Copy, A: Arith<T>>(
    ops: A,
    x: Seq<Expr<T>>,
    y: Seq<Expr<T>>,
    n: int,
    top: T,
    p: EnergyProfile<T>,
) -> bool {
    &&& fits_all(ops, growths_of(x, y, n), p.deformation@)
    &&& fits(
        ops,
        over(
            total_of(energies_of(y, n)),
            larger(total_of(energies_of(x, n)), Expr::Ratio(1, 100000000)),
        ),
        p.total_energy_ratio,
    )
    &&& exists|peak: (T, Option<usize>)| #[trigger]
        extreme(ops, peak.0, p.deformation@, n, true, peak.1, p.peak_ratio) && fits(
            ops,
            zero(),
            peak.0,
        ) && p.peak_band == place(peak.1)
    &&& exists|at: Option<usize>| #[trigger]
        extreme(ops, top, p.deformation@, n, false, at, p.damp_ratio) && p.damp_band == place(at)
}

fn band_at(at: Option<usize>) -> (band: usize)
    ensures
        band == place(at),
{
    match at {
        Some(i) => i,
        None => 0,
    }
}

/// How a model changes the energy of a token; `top` is the largest number.
pub fn compute_energy_profile<T: Copy, A: Arith<T>>(
    ops: &A,
    label: &str,
    input: &[T],
    output: &[T],
    top: T,
) -> (p: EnergyProfile<T>)
    requires
        input@.len() as int / 2 <= output@.len() as int / 2,
    ensures
        p.label@ == label@,
        profile_fits(*ops, vals(input@), vals(output@), input@.len() as int / 2, top, p),
{
    let n: usize = input.len() / 2;
    let olen: usize = output.len();
    let x: TracedVec<T> = traced(ops, input);
    let y: TracedVec<T> = traced(ops, output);
    let deformation: Vec<T> = growths_on(ops, &x, &y, n).v;
    let before: Traced<T> = total(ops, &energies_on(ops, &x, n));
    let after: Traced<T> = total(ops, &energies_on(ops, &y, n));
    let ratio: Traced<T> = after.over(
        ops,
        before.larger(ops, Traced::ratio(ops, 1, 100000000)),
    );
    let nought: Traced<T> = Traced::ratio(ops, 0, 1);
    let peak: (Option<usize>, T) = extreme_of(ops, nought.v, &deformation, true);
    let damp: (Option<usize>, T) = extreme_of(ops, top, &deformation, false);
    let p: EnergyProfile<T> = EnergyProfile {
        label: owned(label),
        deformation,
        total_energy_ratio: ratio.v,
        peak_band: band_at(peak.0),
        peak_ratio: peak.1,
        damp_band: band_at(damp.0),
        damp_ratio: damp.1,
    };
    proof {
        let held = (nought.v, peak.0);
        assert(extreme(*ops, held.0, p.deformation@, n as int, true, held.1, p.peak_ratio));
        assert(extreme(*ops, top, p.deformation@, n as int, false, damp.0, p.damp_ratio));
    }
    p
}

/// How well the bands of two outputs agree at a harmonic.
pub struct HarmonicProfile<T> {
    pub n: usize,
    pub mean_coherence: T,
    pub bands_above_threshold: usize,
    pub per_band: Vec<T>,
}

/// The harmonics at which two outputs are compared.
pub open spec fn compared() -> Seq<usize> {
    seq![1, 2, 3, 4, 5, 6, 7, 8, 9, 10, 12, 16, 20, 24, 27, 36, 60]
}

/// The harmonics at which a common offset of two outputs is sought.
pub open spec fn searched() -> Seq<usize> {
    seq![1, 2, 3, 4, 6]
}

/// By how much the phases of two outputs differ.
pub open spec fn gaps_of<T>(a: Seq<Expr<T>>, b: Seq<Expr<T>>, n: int) -> Seq<Expr<T>> {
    Seq::new(n as nat, |k: int| minus(phases_of(a, n)[k], phases_of(b, n)[k]))
}

/// The same differences at a harmonic.
pub open spec fn scaled_of<T>(gaps: Seq<Expr<T>>, h: usize) -> Seq<Expr<T>> {
    Seq::new(gaps.len(), |k: int| times(Expr::Count(h), gaps[k]))
}

/// The mean angle between two outputs in degrees.
pub open spec fn mean_angle<T>(gaps: Seq<Expr<T>>) -> Expr<T> {
    rest(
        degrees_of(
            angle(total_of(turned(Unary::Sin, gaps)), total_of(turned(Unary::Cos, gaps))),
        ),
        Expr::Ratio(360, 1),
    )
}

/// How closely the differences at a harmonic keep together.
pub open spec fn closeness<T>(gaps: Seq<Expr<T>>, h: usize) -> Expr<T> {
    let c = total_of(turned(Unary::Cos, scaled_of(gaps, h)));
    let s = total_of(turned(Unary::Sin, scaled_of(gaps, h)));
    over(
        un(Unary::Root, plus(times(c, c), times(s, s))),
        Expr::Count(gaps.len() as usize),
    )
}

/// The offset that the differences at a harmonic have in common.
pub open spec fn common_offset<T>(gaps: Seq<Expr<T>>, h: usize) -> Expr<T> {
    let c = total_of(turned(Unary::Cos, scaled_of(gaps, h)));
    let s = total_of(turned(Unary::Sin, scaled_of(gaps, h)));
    over(angle(s, c), Expr::Count(h))
}

/// The profile of two outputs at a harmonic: a band agrees where its coherence exceeds four
/// fifths.
pub open spec fn harmonic_fits<T: Copy, A: Arith<T>>(
    ops: A,
    gaps: Seq<Expr<T>>,
    h: usize,
    p: HarmonicProfile<T>,
) -> bool {
    let each = turned(Unary::Cos, scaled_of(gaps, h));
    &&& p.n == h
    &&& fits_all(ops, each, p.per_band@)
    &&& fits(ops, mean_of(each), p.mean_coherence)
    &&& exists|limit: T| #[trigger]
        counts_over(
            ops,
            limit,
            p.per_band@,
            p.per_band@.len() as int,
            p.bands_above_threshold as int,
        ) && fits(ops, Expr::Ratio(4, 5), limit)
}

/// How two outputs are related.
pub struct RelateReport<T> {
    pub label_a: String,
    pub label_b: String,
    pub mean_angular_distance_deg: T,
    pub catalog_match: Option<(RelationType, T)>,
    pub harmonics: Vec<HarmonicProfile<T>>,
    pub shifted_mrl: T,
    pub shifted_offset: T,
    pub shifted_harmonic: usize,
    pub deformation_sim: T,
}

/// The harmonic at which the differences keep together most: the first one where they do at
/// none.
pub open spec fn best_harmonic(at: Option<usize>) -> usize {
    match at {
        Some(i) => searched()[i as int],
        None => 1,
    }
}

/// The common offset at the best harmonic.
pub open spec fn best_offset<T>(gaps: Seq<Expr<T>>, at: Option<usize>) -> Expr<T> {
    match at {
        Some(i) => common_offset(gaps, searched()[i as int]),
        None => zero(),
    }
}

/// How closely the differences keep together at the harmonics that are searched.
pub open spec fn closenesses<T>(gaps: Seq<Expr<T>>) -> Seq<Expr<T>> {
    Seq::new(5, |i: int| closeness(gaps, searched()[i]))
}

/// The offset that two outputs have in common at the best harmonic.
pub open spec fn shift_fits<T: Copy, A: Arith<T>>(
    ops: A,
    gaps: Seq<Expr<T>>,
    mrl: T,
    offset: T,
    harmonic: usize,
) -> bool {
    exists|all: Seq<T>, start: T, at: Option<usize>|
        {
            &&& #[trigger] extreme(ops, start, all, 5, true, at, mrl)
            &&& fits(ops, zero(), start)
            &&& fits_all(ops, closenesses(gaps), all)
            &&& harmonic == best_harmonic(at)
            &&& fits(ops, best_offset(gaps, at), offset)
        }
}

/// What the phases of two outputs say of their relation.
pub open spec fn relates<T: Copy, A: Arith<T>>(
    ops: A,
    gaps: Seq<Expr<T>>,
    r: RelateReport<T>,
) -> bool {
    &&& fits(ops, mean_angle(gaps), r.mean_angular_distance_deg)
    &&& matched(ops, r.mean_angular_distance_deg, false, 0, r.catalog_match)
    &&& r.harmonics@.len() == compared().len()
    &&& forall|i: int|
        0 <= i < r.harmonics@.len() ==> harmonic_fits(
            ops,
            gaps,
            compared()[i],
            #[trigger] r.harmonics@[i],
        )
    &&& shift_fits(ops, gaps, r.shifted_mrl, r.shifted_offset, r.shifted_harmonic)
}

fn gaps_on<T: Copy, A: Arith<T>>(ops: &A, a: &[T], b: &[T], n: usize) -> (out: TracedVec<T>)
    requires
        2 * n <= a@.len(),
        2 * n <= b@.len(),
    ensures
        out.ok(*ops),
        out.v@.len() == n,
        out.e@ == gaps_of(vals(a@), vals(b@), n as int),
{
    let pa: TracedVec<T> = phases_on(ops, &traced(ops, a), n);
    let pb: TracedVec<T> = phases_on(ops, &traced(ops, b), n);
    let f = |k: usize| -> (r: Traced<T>)
        requires
            k < n,
        ensures
            r.ok(*ops),
            r.e@ == entry(gaps_of(vals(a@), vals(b@), n as int), k),
    {
        pa.get(ops, k).minus(ops, pb.get(ops, k))
    };
    build(ops, n, Ghost(gaps_of(vals(a@), vals(b@), n as int)), f)
}

fn scaled_on<T: Copy, A: Arith<T>>(ops: &A, gaps: &TracedVec<T>, h: usize) -> (out: TracedVec<T>)
    requires
        gaps.ok(*ops),
    ensures
        out.ok(*ops),
        out.v@.len() == gaps.v@.len(),
        out.e@ == scaled_of(gaps.e@, h),
{
    let n: usize = gaps.len();
    let f = |k: usize| -> (r: Traced<T>)
        requires
            k < n,
        ensures
            r.ok(*ops),
            r.e@ == entry(scaled_of(gaps.e@, h), k),
    {
        Traced::count(ops, h).times(ops, gaps.get(ops, k))
    };
    build(ops, n, Ghost(scaled_of(gaps.e@, h)), f)
}

fn harmonic_on<T: Copy, A: Arith<T>>(ops: &A, gaps: &TracedVec<T>, h: usize) -> (p: HarmonicProfile<T>)
    requires
        gaps.ok(*ops),
    ensures
        harmonic_fits(*ops, gaps.e@, h, p),
{
    let each: TracedVec<T> = cosines_on(ops, &scaled_on(ops, gaps, h));
    let mean: Traced<T> = mean_on(ops, &each);
    let limit: Traced<T> = Traced::ratio(ops, 4, 5);
    let above: usize = count_over(ops, limit.v, &each.v);
    let p: HarmonicProfile<T> = HarmonicProfile {
        n: h,
        mean_coherence: mean.v,
        bands_above_threshold: above,
        per_band: each.v,
    };
    assert(counts_over(
        *ops,
        limit.v,
        p.per_band@,
        p.per_band@.len() as int,
        p.bands_above_threshold as int,
    ));
    p
}

fn harmonics_on<T: Copy, A: Arith<T>>(ops: &A, gaps: &TracedVec<T>) -> (out: Vec<HarmonicProfile<T>>)
    requires
        gaps.ok(*ops),
    ensures
        out@.len() == compared().len(),
        forall|i: int|
            0 <= i < out@.len() ==> harmonic_fits(*ops, gaps.e@, compared()[i], #[trigger] out@[i]),
{
    let hs: [usize; 17] = [1, 2, 3, 4, 5, 6, 7, 8, 9, 10, 12, 16, 20, 24, 27, 36, 60];
    assert(hs@ =~= compared());
    let mut out: Vec<HarmonicProfile<T>> = Vec::new();
    let mut i: usize = 0;
    while i < 17
        invariant
            gaps.ok(*ops),
            hs@ == compared(),
            i <= 17,
            out@.len() == i,
            forall|j: int|
                0 <= j < i ==> harmonic_fits(*ops, gaps.e@, compared()[j], #[trigger] out@[j]),
        decreases 17 - i,
    {
        let p: HarmonicProfile<T> = harmonic_on(ops, gaps, hs[i]);
        out.push(p);
        i += 1;
    }
    out
}

/// Sums of the cosines and sines of the differences at a harmonic.
fn sums_at<T: Copy, A: Arith<T>>(ops: &A, gaps: &TracedVec<T>, h: usize) -> (out: (
    Traced<T>,
    Traced<T>,
))
    requires
        gaps.ok(*ops),
    ensures
        out.0.ok(*ops),
        out.1.ok(*ops),
        out.0.e@ == total_of(turned(Unary::Cos, scaled_of(gaps.e@, h))),
        out.1.e@ == total_of(turned(Unary::Sin, scaled_of(gaps.e@, h))),
{
    let at: TracedVec<T> = scaled_on(ops, gaps, h);
    (total(ops, &cosines_on(ops, &at)), total(ops, &sines_on(ops, &at)))
}

fn shift_on<T: Copy, A: Arith<T>>(ops: &A, gaps: &TracedVec<T>) -> (res: (T, T, usize))
    requires
        gaps.ok(*ops),
    ensures
        shift_fits(*ops, gaps.e@, res.0, res.1, res.2),
{
    let n: usize = gaps.len();
    let hs: [usize; 5] = [1, 2, 3, 4, 6];
    assert(hs@ =~= searched());
    let f = |i: usize| -> (r: Traced<T>)
        requires
            i < 5,
        ensures
            r.ok(*ops),
            r.e@ == entry(closenesses(gaps.e@), i),
    {
        let (c, s): (Traced<T>, Traced<T>) = sums_at(ops, gaps, hs[i]);
        c.times(ops, c).plus(ops, s.times(ops, s)).root(ops).over(ops, Traced::count(ops, n))
    };
    let all: TracedVec<T> = build(ops, 5, Ghost(closenesses(gaps.e@)), f);
    let nought: Traced<T> = Traced::ratio(ops, 0, 1);
    let (at, mrl): (Option<usize>, T) = extreme_of(ops, nought.v, &all.v, true);
    let (offset, harmonic): (Traced<T>, usize) = match at {
        Some(i) => {
            let (c, s): (Traced<T>, Traced<T>) = sums_at(ops, gaps, hs[i]);
            (s.angle(ops, c).over(ops, Traced::count(ops, hs[i])), hs[i])
        },
        None => (nought, 1),
    };
    proof {
        assert(extreme(*ops, nought.v, all.v@, 5, true, at, mrl));
        assert(fits(*ops, best_offset(gaps.e@, at), offset.v));
    }
    (mrl, offset.v, harmonic)
}

/// How two outputs are related, by their phases alone.
pub fn relate_states<T: Copy, A: Arith<T>>(
    ops: &A,
    state_a: &[T],
    state_b: &[T],
    label_a: &str,
    label_b: &str,
) -> (r: RelateReport<T>)
    requires
        state_a@.len() as int / 2 <= state_b@.len() as int / 2,
    ensures
        r.label_a@ == label_a@,
        r.label_b@ == label_b@,
        relates(*ops, gaps_of(vals(state_a@), vals(state_b@), state_a@.len() as int / 2), r),
        fits(*ops, zero(), r.deformation_sim),
{
    relate_states_with_deformation(ops, state_a, state_b, label_a, label_b, None, None)
}

/// How alike two deformations are: zero unless both are given.
pub open spec fn deformations_alike<T>(a: Option<&Vec<T>>, b: Option<&Vec<T>>) -> Expr<T> {
    match (a, b) {
        (Some(x), Some(y)) => similarity_of(vals(x@), vals(y@)),
        _ => zero(),
    }
}

/// How two outputs are related, by their phases and by what was done to their energies.
pub fn relate_states_with_deformation<T: Copy, A: Arith<T>>(
    ops: &A,
    state_a: &[T],
    state_b: &[T],
    label_a: &str,
    label_b: &str,
    deform_a: Option<&Vec<T>>,
    deform_b: Option<&Vec<T>>,
) -> (r: RelateReport<T>)
    requires
        state_a@.len() as int / 2 <= state_b@.len() as int / 2,
    ensures
        r.label_a@ == label_a@,
        r.label_b@ == label_b@,
        relates(*ops, gaps_of(vals(state_a@), vals(state_b@), state_a@.len() as int / 2), r),
        fits(*ops, deformations_alike(deform_a, deform_b), r.deformation_sim),
{
    let n: usize = state_a.len() / 2;
    let len_b: usize = state_b.len();
    let gaps: TracedVec<T> = gaps_on(ops, state_a, state_b, n);
    let c: Traced<T> = total(ops, &cosines_on(ops, &gaps));
    let s: Traced<T> = total(ops, &sines_on(ops, &gaps));
    let mean: Traced<T> = degrees_on(ops, s.angle(ops, c)).rest(ops, Traced::ratio(ops, 360, 1));
    let (mrl, offset, harmonic): (T, T, usize) = shift_on(ops, &gaps);
    let alike: T = match (deform_a, deform_b) {
        (Some(a), Some(b)) => deformation_similarity(ops, a, b),
        _ => Traced::ratio(ops, 0, 1).v,
    };
    RelateReport {
        label_a: owned(label_a),
        label_b: owned(label_b),
        mean_angular_distance_deg: mean.v,
        catalog_match: match_catalog(ops, mean.v),
        harmonics: harmonics_on(ops, &gaps),
        shifted_mrl: mrl,
        shifted_offset: offset,
        shifted_harmonic: harmonic,
        deformation_sim: alike,
    }
}

/// How strongly two outputs agree at a harmonic.
#[derive(Clone, Copy, Debug, PartialEq, Eq, Structural)]
pub enum Strength {
    Strong,
    Moderate,
    Weak,
}

/// Strong above seven tenths, moderate above three, weak otherwise; the sign does not matter.
pub fn strength<T: Copy, A: Arith<T>>(ops: &A, mean_coherence: T) -> (s: Strength)
    ensures
        exists|size: T, strong: bool|
            {
                &&& #[trigger] exceeds_ratio(*ops, size, 7, 10, strong)
                &&& fits(*ops, un(Unary::Abs, val(mean_coherence)), size)
                &&& strong ==> s == Strength::Strong
                &&& !strong ==> (s == Strength::Moderate && exceeds_ratio(*ops, size, 3, 10, true))
                    || (s == Strength::Weak && exceeds_ratio(*ops, size, 3, 10, false))
            },
{
    let size: Traced<T> = Traced::of(ops, mean_coherence).abs(ops);
    let strong: bool = over_ratio(ops, size.v, 7, 10);
    assert(exceeds_ratio(*ops, size.v, 7, 10, strong));
    if strong {
        return Strength::Strong;
    }
    if over_ratio(ops, size.v, 3, 10) {
        Strength::Moderate
    } else {
        Strength::Weak
    }
}

/// A single state on its way through a model from the layer at which it was injected.
pub struct InjectRun<T> {
    pub hidden: Vec<T>,
    pub per_layer: Vec<Vec<T>>,
}

/// The factor that the output of a layer enters with.
pub open spec fn factor_of<T>(model: WavePacketModel<T>, layer: int) -> Expr<T> {
    if model.use_layer_scale {
        val(model.layer_scale@[layer])
    } else {
        one()
    }
}

/// The step from a state to a block's output, scaled.
pub open spec fn damped_of<T>(hidden: Seq<T>, output: Seq<T>, factor: Expr<T>) -> Seq<Expr<T>> {
    Seq::new(
        hidden.len(),
        |j: int| plus(val(hidden[j]), times(factor, minus(val(output[j]), val(hidden[j])))),
    )
}

/// A state after a layer: the block's output, or the scaled step to it where the factor
/// differs from one by more than a millionth.
pub open spec fn layer_passed<T: Copy, A: Arith<T>>(
    ops: A,
    model: WavePacketModel<T>,
    layer: int,
    hidden: Seq<T>,
    output: Seq<T>,
    out: Seq<T>,
) -> bool {
    exists|off: T, scaled: bool|
        {
            &&& #[trigger] exceeds_ratio(ops, off, 1, 1000000, scaled)
            &&& fits(ops, un(Unary::Abs, minus(factor_of(model, layer), one())), off)
            &&& if scaled {
                fits_all(ops, damped_of(hidden, output, factor_of(model, layer)), out)
            } else {
                out == output
            }
        }
}

impl<T: Copy> InjectRun<T> {
    /// A run that has passed no layer.
    pub fn new(encoded_state: Vec<T>) -> (run: Self)
        ensures
            run.hidden == encoded_state,
            run.per_layer@.len() == 0,
    {
        InjectRun { hidden: encoded_state, per_layer: Vec::new() }
    }

    /// Whether the next layer's block is needed: those before the injected layer are passed
    /// over.
    pub fn needs_block(&self, inject_layer: usize) -> (yes: bool)
        ensures
            yes == (self.per_layer@.len() >= inject_layer),
    {
        self.per_layer.len() >= inject_layer
    }

    /// Passes over a layer.
    pub fn skip(&mut self)
        ensures
            final(self).hidden@ == old(self).hidden@,
            final(self).per_layer@.len() == old(self).per_layer@.len() + 1,
            final(self).per_layer@.drop_last() == old(self).per_layer@,
            final(self).per_layer@.last()@ == old(self).hidden@,
    {
        let ghost before = self.per_layer@;
        let mut copy: Vec<T> = Vec::new();
        extend_from(&mut copy, &self.hidden);
        assert(copy@ =~= self.hidden@);
        self.per_layer.push(copy);
        assert(self.per_layer@.drop_last() =~= before);
    }

    /// Takes the output of the next layer's block.
    pub fn take<A: Arith<T>>(&mut self, ops: &A, model: &WavePacketModel<T>, output: Vec<T>)
        requires
            output@.len() == old(self).hidden@.len(),
            model.use_layer_scale ==> old(self).per_layer@.len() < model.layer_scale@.len(),
        ensures
            layer_passed(
                *ops,
                *model,
                old(self).per_layer@.len() as int,
                old(self).hidden@,
                output@,
                final(self).hidden@,
            ),
            final(self).per_layer@.len() == old(self).per_layer@.len() + 1,
            final(self).per_layer@.drop_last() == old(self).per_layer@,
            final(self).per_layer@.last()@ == final(self).hidden@,
    {
        let layer: usize = self.per_layer.len();
        let n: usize = self.hidden.len();
        let unit: Traced<T> = Traced::ratio(ops, 1, 1);
        let factor: Traced<T> = if model.use_layer_scale {
            Traced::of(ops, model.layer_scale[layer])
        } else {
            unit
        };
        let off: Traced<T> = factor.minus(ops, unit).abs(ops);
        let scaled: bool = over_ratio(ops, off.v, 1, 1000000);
        let ghost from = self.hidden@;
        let ghost to = output@;
        assert(exceeds_ratio(*ops, off.v, 1, 1000000, scaled));
        if scaled {
            let hidden: &Vec<T> = &self.hidden;
            let f = |j: usize| -> (r: Traced<T>)
                requires
                    j < n,
                ensures
                    r.ok(*ops),
                    r.e@ == entry(damped_of(hidden@, output@, factor.e@), j),
            {
                let h: Traced<T> = Traced::of(ops, hidden[j]);
                h.plus(ops, factor.times(ops, Traced::of(ops, output[j]).minus(ops, h)))
            };
            let out: TracedVec<T> = build(
                ops,
                n,
                Ghost(damped_of(hidden@, output@, factor.e@)),
                f,
            );
            self.hidden = out.v;
        } else {
            self.hidden = output;
        }
        assert(layer_passed(*ops, *model, layer as int, from, to, self.hidden@));
        self.skip();
    }

    /// The state after all layers, through the final norm.
    pub fn finish<A: Arith<T>>(&self, ops: &A, model: &WavePacketModel<T>) -> (out: Vec<T>)
        requires
            self.hidden@.len() <= model.ln_f.weight@.len(),
            self.hidden@.len() <= model.ln_f.bias@.len(),
        ensures
            fits_all(
                *ops,
                norm_of(vals(self.hidden@), model.ln_f.weight@, model.ln_f.bias@),
                out@,
            ),
    {
        layer_norm(ops, &self.hidden, &model.ln_f.weight, &model.ln_f.bias)
    }
}

/// The state that a token enters the model with at the first position.
pub fn token_state<T: Copy, A: Arith<T>>(ops: &A, model: &WavePacketModel<T>, tok: usize) -> (out: Vec<T>)
    requires
        tok < model.wte@.len(),
        0 < model.wpe@.len(),
        model.wte@[tok as int]@.len() == model.wpe@[0]@.len(),
    ensures
        fits_all(*ops, sums_of(vals(model.wte@[tok as int]@), vals(model.wpe@[0]@)), out@),
{
    sums_on(ops, &traced(ops, &model.wte[tok]), &traced(ops, &model.wpe[0])).v
}

/// Outputs that all have the bands of the first one.
pub open spec fn same_bands<T>(outputs: Seq<Vec<T>>) -> bool {
    forall|i: int, j: int|
        0 <= i < j < outputs.len() ==> (#[trigger] outputs[i])@.len() as int / 2 <= (
        #[trigger] outputs[j])@.len() as int / 2
}

/// A report says how the outputs of a pair are related.
pub open spec fn pair_relates<T: Copy, A: Arith<T>>(
    ops: A,
    labels: Seq<String>,
    outputs: Seq<Vec<T>>,
    deformations: Option<Seq<Vec<T>>>,
    p: (usize, usize),
    r: RelateReport<T>,
) -> bool {
    let (a, b) = (outputs[p.0 as int], outputs[p.1 as int]);
    &&& r.label_a@ == labels[p.0 as int]@
    &&& r.label_b@ == labels[p.1 as int]@
    &&& relates(ops, gaps_of(vals(a@), vals(b@), a@.len() as int / 2), r)
    &&& fits(
        ops,
        match deformations {
            Some(d) => similarity_of(vals(d[p.0 as int]@), vals(d[p.1 as int]@)),
            None => zero(),
        },
        r.deformation_sim,
    )
}

/// The relations of all pairs of outputs, in the order of the pairs; their deformations
/// count where they are given.
pub fn relate_pairs<T: Copy, A: Arith<T>>(
    ops: &A,
    labels: &Vec<String>,
    outputs: &Vec<Vec<T>>,
    deformations: Option<&Vec<Vec<T>>>,
) -> (reports: Vec<RelateReport<T>>)
    requires
        labels@.len() == outputs@.len(),
        same_bands(outputs@),
        deformations matches Some(d) ==> d@.len() == outputs@.len(),
    ensures
        ({
            let n = outputs@.len() as int;
            let ps = pair_rows(n, n);
            &&& reports@.len() == ps.len()
            &&& forall|i: int|
                0 <= i < ps.len() ==> pair_relates(
                    *ops,
                    labels@,
                    outputs@,
                    match deformations {
                        Some(d) => Some(d@),
                        None => None,
                    },
                    ps[i],
                    #[trigger] reports@[i],
                )
        }),
{
    let n: usize = outputs.len();
    let ps: Vec<(usize, usize)> = pairs(n);
    let m: usize = ps.len();
    let ghost deformed = match deformations {
        Some(d) => Some(d@),
        None => None,
    };
    let mut reports: Vec<RelateReport<T>> = Vec::new();
    let mut i: usize = 0;
    while i < m
        invariant
            n == outputs@.len(),
            labels@.len() == n,
            same_bands(outputs@),
            deformations matches Some(d) ==> d@.len() == n,
            deformed == (match deformations {
                Some(d) => Some(d@),
                None => None,
            }),
            ps@ == pair_rows(n as int, n as int),
            m == ps@.len(),
            i <= m,
            reports@.len() == i,
            forall|j: int|
                0 <= j < i ==> pair_relates(
                    *ops,
                    labels@,
                    outputs@,
                    deformed,
                    ps@[j],
                    #[trigger] reports@[j],
                ),
        decreases m - i,
    {
        proof {
            lemma_pairs_in_range(n as int, n as int, i as int);
        }
        let (a, b): (usize, usize) = ps[i];
        assert(outputs@[a as int]@.len() as int / 2 <= outputs@[b as int]@.len() as int / 2);
        let (da, db): (Option<&Vec<T>>, Option<&Vec<T>>) = match deformations {
            Some(d) => (Some(&d[a]), Some(&d[b])),
            None => (None, None),
        };
        let r: RelateReport<T> = relate_states_with_deformation(
            ops,
            &outputs[a],
            &outputs[b],
            labels[a].as_str(),
            labels[b].as_str(),
            da,
            db,
        );
        reports.push(r);
        i += 1;
    }
    reports
}

/// The relationships that reports found.
pub open spec fn relations_found<T>(reports: Seq<RelateReport<T>>) -> Seq<Option<RelationType>> {
    Seq::new(
        reports.len(),
        |i: int|
            match reports[i].catalog_match {
                Some(m) => Some(m.0),
                None => None,
            },
    )
}

/// How often each relationship occurs among reports, from the most frequent down.
pub fn relation_counts<T: Copy>(reports: &Vec<RelateReport<T>>) -> (out: Vec<(RelationType, usize)>)
    ensures
        ranked(out@),
        counts(out@, relations_found(reports@)),
        forall|rel: RelationType|
            matches_of(relations_found(reports@), rel) > 0 ==> #[trigger] listed(out@, rel),
{
    let n: usize = reports.len();
    let mut found: Vec<Option<RelationType>> = Vec::new();
    let mut i: usize = 0;
    while i < n
        invariant
            n == reports@.len(),
            i <= n,
            found@ == relations_found(reports@).take(i as int),
        decreases n - i,
    {
        found.push(
            match reports[i].catalog_match {
                Some(m) => Some(m.0),
                None => None,
            },
        );
        i += 1;
        assert(found@ =~= relations_found(reports@).take(i as int));
    }
    assert(found@ =~= relations_found(reports@));
    catalog_distribution(&found)
}

} // verus!
