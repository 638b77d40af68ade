//! In exact arithmetic: the peaks, shares and verdicts that calls give.

use vstd::prelude::*;
use crate::arith::Arith;
#[allow(unused_imports)]
use crate::arith::{Expr, Test, fits, fits_all, larger, over, test_is, val, vals, zero};
#[allow(unused_imports)]
use crate::analysis_exact::law_best_agreement_is_largest;
#[allow(unused_imports)]
use crate::averages::lemma_quotient_undone;
#[allow(unused_imports)]
use crate::correlation_exact::{lemma_squares, root_squares};
#[allow(unused_imports)]
use crate::decode_exact::{law_last_top_is_largest, phase_in};
#[allow(unused_imports)]
use crate::estimates::{
    EarlyHealth, Share, TimeUnit, band_utilisation, format_time, health_fits, pos_per_head,
    seconds_of, share_fits, stays_below, time_told, tokens_per_dim,
};
#[allow(unused_imports)]
use crate::exact::{Curves, Dual, holds_of, prod, value};
#[allow(unused_imports)]
use crate::loss::norm_of;
#[allow(unused_imports)]
use crate::phase_report::gaps_of;
#[allow(unused_imports)]
use crate::readings_exact::law_seconds_are_thousands;
#[allow(unused_imports)]
use crate::structure_exact::{
    law_falling_order_falls, law_first_low_is_least, law_first_peak_is_largest,
};
#[allow(unused_imports)]
use crate::sub_harmonic::{
    CouplingBudget, InterModSpectrum, MagnitudeCoupling, best_pair, coupling_at, couplings_at,
    entropy_ratio, extremes, falling, first_peak, intermod_peaks, mag_rows, magnitude_coupling,
    placed, powers_of, shares_of, surprises,
};
#[allow(unused_imports)]
use crate::training_exact::{lemma_norm_value, square_sum};
#[allow(unused_imports)]
use crate::values::{exact, group_value, lemma_fits, lemma_fits_all, lemma_whole};
#[allow(unused_imports)]
use crate::wave_analysis::{agreement, best_harmonic_coherence, best_of, harmonic_at, spectrum_of};

verus! {

/// The best harmonic of two vectors of phases: at no harmonic do they agree better, and where they
/// agree at all, that is how well they agree at the harmonic that is told.
#[verifier::spinoff_prover]
pub proof fn law_best_harmonic_agrees_best<A: Arith<Dual>>(
    cu: Curves,
    ops: A,
    a: &[Dual],
    b: &[Dual],
    max_n: usize,
    res: (Dual, usize),
    h: int,
)
    requires
        exact(cu, ops),
        max_n < usize::MAX,
        1 <= h <= max_n,
        call_ensures(best_harmonic_coherence::<Dual, A>, (&ops, a, b, max_n), res),
    ensures
        value(cu, agreement(vals(a@), vals(b@), h as usize, false)) <= res.0.v,
        res.0.v > 0real ==> 1 <= res.1 <= max_n && value(
            cu,
            agreement(vals(a@), vals(b@), res.1, false),
        ) == res.0.v,
{
    broadcast use group_value;

    let (x, y) = (vals(a@), vals(b@));
    let n = max_n as int;
    lemma_fits(cu, ops, best_of(x, y, n), res.0);
    law_best_agreement_is_largest(cu, x, y, n, h);
    let es = spectrum_of(x, y, n, false);
    let (xs, start, at) = choose|xs: Seq<Dual>, start: Dual, at: Option<int>|
        fits_all(ops, es, xs) && fits(ops, zero(), start) && #[trigger] first_peak(
            ops,
            start,
            xs,
            xs.len() as int,
            at,
            res.0,
        ) && res.1 as int == harmonic_at(at);
    lemma_fits_all(cu, ops, es, xs);
    lemma_fits(cu, ops, zero(), start);
    law_first_peak_is_largest(cu, ops, start, xs, xs.len() as int, at, res.0);
    if res.0.v > 0real {
        let k = at->0;
        assert(xs[k].v == value(cu, es[k]));
        assert(es[k] == agreement(x, y, (k + 1) as usize, false));
    }
}

/// How the magnitudes of bands go together: at the distances one to five and at ten, and no
/// adjacent pair more than the pair that is told.
#[verifier::spinoff_prover]
pub proof fn law_magnitude_coupling_finds_best_pair<A: Arith<Dual>>(
    cu: Curves,
    ops: A,
    states: Vec<Vec<Dual>>,
    n: usize,
    out: MagnitudeCoupling<Dual>,
    d: int,
    k: int,
)
    requires
        exact(cu, ops),
        call_ensures(magnitude_coupling::<Dual, A>, (&ops, &states, n), out),
        1 <= d <= 5,
        0 <= k < n - 1,
    ensures
        out.coupling_decay@.len() == 5,
        out.coupling_decay@[d - 1].v == value(
            cu,
            coupling_at(mag_rows(states@, n as int), n as int, d),
        ),
        out.distant_corr.v == value(cu, coupling_at(mag_rows(states@, n as int), n as int, 10)),
        value(cu, couplings_at(mag_rows(states@, n as int), n as int, 1)[k]) <= out.max_pair.2.v,
        out.max_pair.1 == out.max_pair.0 + 1,
        out.max_pair.2.v > 0real ==> out.max_pair.2.v == value(
            cu,
            couplings_at(mag_rows(states@, n as int), n as int, 1)[out.max_pair.0 as int],
        ),
{
    broadcast use group_value;

    let rows = mag_rows(states@, n as int);
    let es = Seq::new(5, |i: int| coupling_at(rows, n as int, i + 1));
    lemma_fits_all(cu, ops, es, out.coupling_decay@);
    assert(out.coupling_decay@[d - 1].v == value(cu, es[d - 1]));
    lemma_fits(cu, ops, coupling_at(rows, n as int, 10), out.distant_corr);
    let all = couplings_at(rows, n as int, 1);
    let xs = choose|xs: Seq<Dual>|
        fits_all(ops, all, xs) && #[trigger] best_pair(ops, xs, out.max_pair);
    lemma_fits_all(cu, ops, all, xs);
    let (start, at) = choose|start: Dual, at: Option<int>|
        fits(ops, zero(), start) && #[trigger] first_peak(
            ops,
            start,
            xs,
            xs.len() as int,
            at,
            out.max_pair.2,
        ) && (match at {
            Some(k) => out.max_pair.0 == k && out.max_pair.1 == k + 1,
            None => out.max_pair.0 == 0 && out.max_pair.1 == 1,
        });
    lemma_fits(cu, ops, zero(), start);
    law_first_peak_is_largest(cu, ops, start, xs, xs.len() as int, at, out.max_pair.2);
    assert(xs[k].v == value(cu, all[k]));
    if out.max_pair.2.v > 0real {
        let j = at->0;
        assert(xs[j].v == value(cu, all[j]));
    }
}

/// The bands of a budget that are coupled most and least: no ratio is larger than the one, and none
/// smaller than the other.
#[verifier::spinoff_prover]
pub proof fn law_budget_names_extremes<A: Arith<Dual>>(
    cu: Curves,
    ops: A,
    ratios: Seq<Dual>,
    b: CouplingBudget<Dual>,
    k: int,
)
    requires
        exact(cu, ops),
        extremes(ops, ratios, b),
        0 <= k < ratios.len(),
    ensures
        b.least_coupled_band.1.v <= ratios[k].v <= b.most_coupled_band.1.v,
        b.most_coupled_band.1 == ratios[b.most_coupled_band.0 as int],
        b.least_coupled_band.1 == ratios[b.least_coupled_band.0 as int],
{
    let n = ratios.len() as int;
    law_last_top_is_largest(cu, ops, ratios, n, b.most_coupled_band.0 as int);
    law_first_low_is_least(cu, ops, ratios, n, b.least_coupled_band.0 as int);
}

/// The peaks of a spectrum: the first is the largest share of the power, and tells the dominant
/// period.
#[verifier::spinoff_prover]
pub proof fn law_first_peak_has_the_largest_share<A: Arith<Dual>>(
    cu: Curves,
    ops: A,
    re: Vec<Dual>,
    im: Vec<Dual>,
    out: InterModSpectrum<Dual>,
    i: int,
)
    requires
        exact(cu, ops),
        call_ensures(intermod_peaks::<Dual, A>, (&ops, &re, &im), out),
        0 <= i < shares_of(powers_of(re@, im@)).len(),
    ensures
        out.spectral_peaks@.len() > 0,
        value(cu, shares_of(powers_of(re@, im@))[i]) <= out.spectral_peaks@[0].1.v,
        out.dominant_period == out.spectral_peaks@[0].0,
        out.spectral_peaks@.len() <= 5,
{
    let es = shares_of(powers_of(re@, im@));
    let (shares, order, terms) = choose|
        shares: Seq<Dual>,
        order: Seq<(usize, Dual)>,
        terms: Seq<Expr<Dual>>,
    |
        {
            &&& fits_all(ops, es, shares)
            &&& order.to_multiset() == placed(shares, 1).to_multiset()
            &&& #[trigger] falling(ops, order)
            &&& out.spectral_peaks@ == order.take(if order.len() < 5 {
                order.len() as int
            } else {
                5
            })
            &&& out.dominant_period == (if order.len() > 0 {
                order[0].0
            } else {
                1
            })
            &&& #[trigger] surprises(ops, shares, shares.len() as int, terms)
            &&& fits(
                ops,
                entropy_ratio(terms, shares.len() as usize),
                out.spectral_entropy,
            )
        };
    lemma_fits_all(cu, ops, es, shares);
    let all = placed(shares, 1);
    all.to_multiset_ensures();
    order.to_multiset_ensures();
    assert(all.contains(all[i]));
    assert(order.to_multiset().count(all[i]) > 0);
    assert(order.contains(all[i]));
    let j = choose|j: int| 0 <= j < order.len() && order[j] == all[i];
    if j > 0 {
        law_falling_order_falls(cu, ops, order, 0, j);
    }
    assert(shares[i].v == value(cu, es[i]));
}

#[verifier::spinoff_prover]
proof fn lemma_share<A: Arith<Dual>>(
    cu: Curves,
    ops: A,
    part: usize,
    whole: usize,
    num: u64,
    den: u64,
    s: Share<Dual>,
)
    requires
        exact(cu, ops),
        whole > 0,
        share_fits(ops, part, whole, num, den, s),
    ensures
        prod(s.value.v, whole as real) == part as real,
        s.reached <==> s.value.v >= num as real / den as real,
{
    broadcast use group_value;

    lemma_fits(cu, ops, over(Expr::Count(part), Expr::Count(whole)), s.value);
    lemma_quotient_undone(part as real, whole as real);
    let limit = choose|limit: Dual| #[trigger]
        test_is(ops, Test::AtMost, limit, s.value, s.reached) && fits(
            ops,
            Expr::Ratio(num, den),
            limit,
        );
    lemma_fits(cu, ops, Expr::Ratio(num, den), limit);
    assert(s.reached == holds_of(Test::AtMost, limit.v, s.value.v));
}

/// Shares: tokens for every dimension reach a half, active bands reach eighty-five hundredths, and
/// positions for every head reach forty, each exactly where the share times the whole, the part,
/// says so.
#[verifier::spinoff_prover]
pub proof fn law_shares_reach_their_limits<A: Arith<Dual>>(
    cu: Curves,
    ops: A,
    vocab: usize,
    active: usize,
    bands: usize,
    positions: usize,
    heads: usize,
    dense: Share<Dual>,
    used: Share<Dual>,
    wide: Share<Dual>,
)
    requires
        exact(cu, ops),
        0 < active,
        2 * active <= usize::MAX,
        0 < bands,
        0 < heads,
        call_ensures(tokens_per_dim::<Dual, A>, (&ops, vocab, active), dense),
        call_ensures(band_utilisation::<Dual, A>, (&ops, active, bands), used),
        call_ensures(pos_per_head::<Dual, A>, (&ops, positions, heads), wide),
    ensures
        prod(dense.value.v, 2real * (active as real)) == vocab as real,
        dense.reached <==> dense.value.v >= 1real / 2real,
        prod(used.value.v, bands as real) == active as real,
        used.reached <==> used.value.v >= 85real / 100real,
        prod(wide.value.v, heads as real) == positions as real,
        wide.reached <==> wide.value.v >= 40real,
{
    lemma_share(cu, ops, vocab, (2 * active) as usize, 1, 2, dense);
    lemma_share(cu, ops, active, bands, 85, 100, used);
    lemma_share(cu, ops, positions, heads, 40, 1, wide);
    assert(((2 * active) as usize) as real == 2real * (active as real));
    assert(40u64 as real / 1u64 as real == 40real);
}

/// How a time is told: in seconds below a minute, in minutes below an hour, else in hours.
#[verifier::spinoff_prover]
pub proof fn law_times_are_told_in_units<A: Arith<Dual>>(
    cu: Curves,
    ops: A,
    ms: Dual,
    out: (TimeUnit, Dual),
)
    requires
        exact(cu, ops),
        call_ensures(format_time::<Dual, A>, (&ops, ms), out),
    ensures
        out.0 == TimeUnit::Seconds ==> ms.v < 60000real && prod(out.1.v, 1000real) == ms.v,
        out.0 == TimeUnit::Minutes ==> 60000real <= ms.v < 3600000real && prod(
            prod(out.1.v, 60real),
            1000real,
        ) == ms.v,
        out.0 == TimeUnit::Hours ==> ms.v >= 3600000real && prod(
            prod(out.1.v, 3600real),
            1000real,
        ) == ms.v,
{
    broadcast use group_value;

    let (seconds, short) = choose|seconds: Dual, short: bool|
        {
            &&& #[trigger] stays_below(ops, seconds, 60, short)
            &&& fits(ops, seconds_of(ms), seconds)
            &&& time_told(ops, seconds, short, out.0, out.1)
        };
    lemma_fits(cu, ops, seconds_of(ms), seconds);
    law_seconds_are_thousands(cu, ms);
    lemma_thousands(seconds.v, ms.v);
    lemma_below(cu, ops, seconds, 60);
    lemma_below(cu, ops, seconds, 3600);
    lemma_whole(cu, 60);
    lemma_whole(cu, 3600);
    if !short {
        if out.0 == TimeUnit::Minutes {
            lemma_fits(cu, ops, over(val(seconds), Expr::Ratio(60, 1)), out.1);
            lemma_quotient_undone(seconds.v, 60real);
        } else {
            lemma_fits(cu, ops, over(val(seconds), Expr::Ratio(3600, 1)), out.1);
            lemma_quotient_undone(seconds.v, 3600real);
        }
    }
}

#[verifier::spinoff_prover]
proof fn lemma_thousands(s: real, ms: real)
    requires
        prod(s, 1000real) == ms,
    ensures
        1000real * s == ms,
{
    reveal(prod);
}

#[verifier::spinoff_prover]
proof fn lemma_below<A: Arith<Dual>>(cu: Curves, ops: A, seconds: Dual, limit: u64)
    requires
        exact(cu, ops),
    ensures
        stays_below(ops, seconds, limit, true) ==> seconds.v < limit as real,
        stays_below(ops, seconds, limit, false) ==> seconds.v >= limit as real,
{
    broadcast use group_value;

    lemma_whole(cu, limit);
    if stays_below(ops, seconds, limit, true) {
        let x = choose|x: Dual| #[trigger]
            test_is(ops, Test::Exceeds, x, seconds, true) && fits(ops, Expr::Ratio(limit, 1), x);
        lemma_fits(cu, ops, Expr::Ratio(limit, 1), x);
        assert(true == holds_of(Test::Exceeds, x.v, seconds.v));
    }
    if stays_below(ops, seconds, limit, false) {
        let x = choose|x: Dual| #[trigger]
            test_is(ops, Test::Exceeds, x, seconds, false) && fits(ops, Expr::Ratio(limit, 1), x);
        lemma_fits(cu, ops, Expr::Ratio(limit, 1), x);
        assert(false == holds_of(Test::Exceeds, x.v, seconds.v));
    }
}

/// The health of an early iteration: the lengths of the model's and the head's gradients, the
/// head's share of the whole, and that it dominates exactly where the share is over ninety-five
/// hundredths.
#[verifier::spinoff_prover]
pub proof fn law_early_health_measures_head<A: Arith<Dual>>(
    cu: Curves,
    ops: A,
    grads: Seq<Dual>,
    start: int,
    norm: Dual,
    h: EarlyHealth<Dual>,
)
    requires
        exact(cu, ops),
        root_squares(cu),
        0 <= start <= grads.len(),
        norm.v >= 1real / 1000real,
        health_fits(ops, grads, start, norm, h),
    ensures
        prod(h.model_norm.v, h.model_norm.v) == square_sum(grads.subrange(0, start)),
        prod(h.head_norm.v, h.head_norm.v) == square_sum(
            grads.subrange(start, grads.len() as int),
        ),
        prod(h.head_share.v, norm.v) == h.head_norm.v,
        h.dominated <==> h.head_share.v > 95real / 100real,
{
    broadcast use group_value;

    let a = grads.subrange(0, start);
    let b = grads.subrange(start, grads.len() as int);
    lemma_fits(cu, ops, norm_of(vals(a)), h.model_norm);
    lemma_fits(cu, ops, norm_of(vals(b)), h.head_norm);
    lemma_norm_value(cu, a);
    lemma_norm_value(cu, b);
    lemma_squares(|i: int| a[i].v, |i: int| prod(a[i].v, a[i].v), a.len() as int);
    lemma_squares(|i: int| b[i].v, |i: int| prod(b[i].v, b[i].v), b.len() as int);
    let share = over(norm_of(vals(b)), larger(val(norm), Expr::Ratio(1, 1000)));
    lemma_fits(cu, ops, share, h.head_share);
    assert(value(cu, Expr::<Dual>::Ratio(1, 1000)) == 1real / 1000real);
    assert(value(cu, Expr::<Dual>::Ratio(95, 100)) == 95real / 100real);
    lemma_quotient_undone(h.head_norm.v, norm.v);
    let limit = choose|limit: Dual| #[trigger]
        test_is(ops, Test::Exceeds, h.head_share, limit, h.dominated) && fits(
            ops,
            Expr::Ratio(95, 100),
            limit,
        );
    lemma_fits(cu, ops, Expr::Ratio(95, 100), limit);
    assert(h.dominated == holds_of(Test::Exceeds, h.head_share.v, limit.v));
}

/// What two outputs differ by, band by band: the difference of their phases.
#[verifier::spinoff_prover]
pub proof fn law_gaps_are_phase_differences(
    cu: Curves,
    a: Seq<Dual>,
    b: Seq<Dual>,
    n: int,
    k: int,
)
    requires
        0 <= k < n,
        2 * n <= a.len(),
        2 * n <= b.len(),
    ensures
        value(cu, gaps_of(vals(a), vals(b), n)[k]) == phase_in(cu, |i: int| a[i].v, k) - phase_in(
            cu,
            |i: int| b[i].v,
            k,
        ),
{
    broadcast use group_value;

    assert(vals(a)[2 * k] == val(a[2 * k]) && vals(a)[2 * k + 1] == val(a[2 * k + 1]));
    assert(vals(b)[2 * k] == val(b[2 * k]) && vals(b)[2 * k + 1] == val(b[2 * k + 1]));
}

} // verus!
