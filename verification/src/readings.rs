//! The numbers and the judgements that reports and logs show.

use vstd::prelude::*;
use crate::arith::{Arith, Test, Traced, TracedVec, build, holds};
#[allow(unused_imports)]
use crate::arith::{
    Expr, Unary, entry, fits, fits_all, larger, minus, over, test_is, times, total_of, un, val,
    vals, zero,
};
use crate::health::{final_window, rolling_windows};
#[allow(unused_imports)]
use crate::health::spec_windows;
use crate::layers::{mean_on, softplus_on, traced};
#[allow(unused_imports)]
use crate::layers::{mean_of, softplus_of};
use crate::loss::norm_on;
#[allow(unused_imports)]
use crate::loss::norm_of;
use crate::ode_monitor::BandState;
use crate::param_groups::{lm_start, telemetry_layer_range};
use crate::phase_report::{BandDelta, BandInfo};
use crate::seqs::take;
use crate::statistics::over_ratio;
#[allow(unused_imports)]
use crate::statistics::exceeds_ratio;
use crate::sub_harmonic::sorted_peaks;
#[allow(unused_imports)]
use crate::sub_harmonic::{falling, placed};

verus! {

/// The length of a gradient.
pub fn gradient_norm<T: Copy, A: Arith<T>>(ops: &A, grads: &[T]) -> (out: T)
    ensures
        fits(*ops, norm_of(vals(grads@)), out),
{
    norm_on(ops, &traced(ops, grads)).v
}

/// How a gradient is shared out: between the layers and the head, and among the layers.
pub struct GradientReport<T> {
    pub model_gn: T,
    pub head_gn: T,
    pub head_pct: T,
    pub layer_gn: Vec<T>,
}

/// The share of the head in hundredths of the whole, which counts as a thousandth at least.
pub open spec fn head_percent<T>(head: Expr<T>, grad_norm: T) -> Expr<T> {
    times(over(head, larger(val(grad_norm), Expr::Ratio(1, 1000))), Expr::Ratio(100, 1))
}

/// The lengths of the layers' gradients; each layer has an equal part of what precedes the head.
pub open spec fn layer_norms<T>(grads: Seq<T>, start: int, n_layers: int) -> Seq<Expr<T>> {
    Seq::new(
        n_layers as nat,
        |l: int|
            norm_of(
                vals(grads.subrange(l * (start / n_layers), (l + 1) * (start / n_layers))),
            ),
    )
}

/// Where the head's gradients start.
pub open spec fn head_from(n_trainable: int, head: int) -> int {
    if head <= n_trainable {
        n_trainable - head
    } else {
        0
    }
}

/// Shares a gradient out.
pub fn gradient_report<T: Copy, A: Arith<T>>(
    ops: &A,
    grads: &Vec<T>,
    n_trainable: usize,
    vocab_size: usize,
    n_embd: usize,
    n_layers: usize,
    grad_norm: T,
) -> (out: GradientReport<T>)
    requires
        vocab_size * n_embd <= usize::MAX,
        n_trainable <= grads@.len(),
    ensures
        ({
            let start = head_from(n_trainable as int, vocab_size * n_embd);
            let head = norm_of(vals(grads@.subrange(start, grads@.len() as int)));
            &&& fits(*ops, norm_of(vals(grads@.subrange(0, start))), out.model_gn)
            &&& fits(*ops, head, out.head_gn)
            &&& fits(*ops, head_percent(head, grad_norm), out.head_pct)
            &&& fits_all(*ops, layer_norms(grads@, start, n_layers as int), out.layer_gn@)
        }),
{
    let start: usize = lm_start(n_trainable, vocab_size, n_embd);
    let n: usize = grads.len();
    let model: Traced<T> = norm_on(ops, &traced(ops, &take(grads, 0, start)));
    let head: Traced<T> = norm_on(ops, &traced(ops, &take(grads, start, n - start)));
    let percent: Traced<T> = head.over(
        ops,
        Traced::of(ops, grad_norm).larger(ops, Traced::ratio(ops, 1, 1000)),
    ).times(ops, Traced::ratio(ops, 100, 1));
    let f = |l: usize| -> (r: Traced<T>)
        requires
            l < n_layers,
        ensures
            r.ok(*ops),
            r.e@ == entry(layer_norms(grads@, start as int, n_layers as int), l),
        {
            let (from, to) = telemetry_layer_range(start, n_layers, l);
            norm_on(ops, &traced(ops, &take(grads, from, to - from)))
        };
    let layers: TracedVec<T> = build(
        ops,
        n_layers,
        Ghost(layer_norms(grads@, start as int, n_layers as int)),
        f,
    );
    GradientReport { model_gn: model.v, head_gn: head.v, head_pct: percent.v, layer_gn: layers.v }
}

/// The damping of every band.
pub open spec fn dampings_of<T>(gamma_raw: Seq<T>) -> Seq<Expr<T>> {
    Seq::new(gamma_raw.len(), |k: int| softplus_of(val(gamma_raw[k])))
}

/// The mean damping of a layer's bands.
pub fn mean_damping<T: Copy, A: Arith<T>>(ops: &A, gamma_raw: &[T]) -> (out: T)
    ensures
        fits(*ops, mean_of(dampings_of(gamma_raw@)), out),
{
    let n: usize = gamma_raw.len();
    let f = |k: usize| -> (r: Traced<T>)
        requires
            k < n,
        ensures
            r.ok(*ops),
            r.e@ == entry(dampings_of(gamma_raw@), k),
        { softplus_on(ops, Traced::of(ops, gamma_raw[k])) };
    mean_on(ops, &build(ops, n, Ghost(dampings_of(gamma_raw@)), f)).v
}

/// The mean of some numbers; of none it is zero.
pub open spec fn average_of<T>(xs: Seq<T>) -> Expr<T> {
    if xs.len() == 0 {
        zero()
    } else {
        mean_of(vals(xs))
    }
}

/// The mean of some numbers.
pub fn average<T: Copy, A: Arith<T>>(ops: &A, xs: &[T]) -> (out: T)
    ensures
        fits(*ops, average_of(xs@), out),
{
    if xs.len() == 0 {
        Traced::ratio(ops, 0, 1).v
    } else {
        mean_on(ops, &traced(ops, xs)).v
    }
}

/// The mean of the last hundred losses of a run, or of all where there are fewer.
pub fn final_average<T: Copy, A: Arith<T>>(ops: &A, history: &Vec<T>) -> (out: T)
    ensures
        fits(
            *ops,
            average_of(
                if history@.len() >= 100 {
                    history@.subrange(history@.len() - 100, history@.len() as int)
                } else {
                    history@
                },
            ),
            out,
        ),
{
    let (from, to) = final_window(history.len());
    let part: Vec<T> = take(history, from, to - from);
    assert(history@.len() < 100 ==> part@ =~= history@);
    average(ops, &part)
}

/// The mean loss of every window of a long run.
pub fn rolling_averages<T: Copy, A: Arith<T>>(ops: &A, history: &Vec<T>) -> (out: Vec<
    (usize, usize, T),
>)
    ensures
        out@.len() == spec_windows(history@.len() as int).len(),
        forall|i: int|
            0 <= i < out@.len() ==> {
                let w = spec_windows(history@.len() as int)[i];
                &&& (#[trigger] out@[i]).0 == w.0
                &&& out@[i].1 == w.1
                &&& fits(*ops, average_of(history@.subrange(w.0, w.1)), out@[i].2)
            },
{
    let windows: Vec<(usize, usize)> = rolling_windows(history.len());
    let mut out: Vec<(usize, usize, T)> = Vec::new();
    let mut i: usize = 0;
    while i < windows.len()
        invariant
            i <= windows@.len(),
            windows@.len() == spec_windows(history@.len() as int).len(),
            forall|j: int|
                0 <= j < windows@.len() ==> (#[trigger] windows@[j]).0 == spec_windows(
                    history@.len() as int,
                )[j].0 && windows@[j].1 == spec_windows(history@.len() as int)[j].1,
            out@.len() == i,
            forall|j: int|
                0 <= j < i ==> {
                    let w = spec_windows(history@.len() as int)[j];
                    &&& (#[trigger] out@[j]).0 == w.0
                    &&& out@[j].1 == w.1
                    &&& fits(*ops, average_of(history@.subrange(w.0, w.1)), out@[j].2)
                },
        decreases windows@.len() - i,
    {
        let (from, to) = windows[i];
        proof {
            crate::health::law_windows_tile_history(history@.len() as int, i as int);
        }
        let part: Vec<T> = take(history, from, to - from);
        out.push((from, to, average(ops, &part)));
        i += 1;
    }
    out
}

/// The entropy of an encoding is high, and one of its two discriminations is over twice the
/// other.
pub open spec fn drift_fits<T: Copy, A: Arith<T>>(
    ops: A,
    entropy: T,
    theta: T,
    delta: T,
    high: bool,
    first: bool,
    second: bool,
) -> bool {
    &&& exceeds_ratio(ops, entropy, 60, 100, high)
    &&& exceeds_twice(ops, theta, delta, first)
    &&& exceeds_twice(ops, delta, theta, second)
}

/// One number is over twice another.
pub open spec fn exceeds_twice<T: Copy, A: Arith<T>>(ops: A, x: T, y: T, c: bool) -> bool {
    exists|double: T| #[trigger]
        test_is(ops, Test::Exceeds, x, double, c) && fits(
            ops,
            times(Expr::Ratio(2, 1), val(y)),
            double,
        )
}

fn over_twice<T: Copy, A: Arith<T>>(ops: &A, x: T, y: T) -> (c: bool)
    ensures
        exceeds_twice(*ops, x, y, c),
{
    let double: Traced<T> = Traced::ratio(ops, 2, 1).times(ops, Traced::of(ops, y));
    let c: bool = holds(ops, Test::Exceeds, x, double.v);
    assert(test_is(*ops, Test::Exceeds, x, double.v, c));
    c
}

/// Whether an encoding drifts: its entropy is over 60 hundredths while the phases of the bands
/// and the differences between them tell words apart very unequally.
pub fn encoding_drifts<T: Copy, A: Arith<T>>(ops: &A, entropy: T, theta: T, delta: T) -> (c: bool)
    ensures
        exists|high: bool, first: bool, second: bool| #[trigger]
            drift_fits(*ops, entropy, theta, delta, high, first, second) && c == (high && (first
                || second)),
{
    let high: bool = over_ratio(ops, entropy, 60, 100);
    let first: bool = over_twice(ops, theta, delta);
    let second: bool = over_twice(ops, delta, theta);
    assert(drift_fits(*ops, entropy, theta, delta, high, first, second));
    high && (first || second)
}

/// A share is a number from zero to one.
pub open spec fn share_fits<T: Copy, A: Arith<T>>(
    ops: A,
    x: T,
    nought: T,
    below: bool,
    above: bool,
    same: bool,
) -> bool {
    &&& fits(ops, zero(), nought)
    &&& test_is(ops, Test::Exceeds, nought, x, below)
    &&& exceeds_ratio(ops, x, 1, 1, above)
    &&& test_is(ops, Test::Equals, x, x, same)
}

/// Whether a share makes sense: it is neither below zero, nor above one, nor no number at all.
pub fn is_share<T: Copy, A: Arith<T>>(ops: &A, x: T) -> (c: bool)
    ensures
        exists|nought: T, below: bool, above: bool, same: bool| #[trigger]
            share_fits(*ops, x, nought, below, above, same) && c == (!below && !above && same),
{
    let nought: Traced<T> = Traced::ratio(ops, 0, 1);
    let below: bool = holds(ops, Test::Exceeds, nought.v, x);
    let above: bool = over_ratio(ops, x, 1, 1);
    let same: bool = holds(ops, Test::Equals, x, x);
    assert(share_fits(*ops, x, nought.v, below, above, same));
    !below && !above && same
}

/// The entries whose flags are set, in order.
pub open spec fn picked<E>(xs: Seq<E>, flags: Seq<bool>) -> Seq<E>
    decreases flags.len(),
{
    if flags.len() == 0 {
        Seq::empty()
    } else if flags.last() {
        picked(xs, flags.drop_last()).push(xs[flags.len() - 1])
    } else {
        picked(xs, flags.drop_last())
    }
}

/// The places of a list.
pub open spec fn places(n: nat) -> Seq<usize> {
    Seq::new(n, |i: int| i as usize)
}

/// The size of a number is over a ratio.
pub open spec fn size_exceeds<T: Copy, A: Arith<T>>(
    ops: A,
    x: T,
    num: u64,
    den: u64,
    c: bool,
) -> bool {
    exists|size: T| #[trigger]
        exceeds_ratio(ops, size, num, den, c) && fits(ops, un(Unary::Abs, val(x)), size)
}

/// Bands that an encoding turned: those whose phase is over a hundredth.
pub fn turned_bands<T: Copy, A: Arith<T>>(ops: &A, bands: &Vec<BandInfo<T>>) -> (out: Vec<usize>)
    ensures
        exists|flags: Seq<bool>|
            {
                &&& flags.len() == bands@.len()
                &&& forall|i: int|
                    0 <= i < bands@.len() ==> size_exceeds(
                        *ops,
                        bands@[i].phase,
                        1,
                        100,
                        #[trigger] flags[i],
                    )
                &&& out@ == #[trigger] picked(places(bands@.len()), flags)
            },
{
    let ghost mut flags: Seq<bool> = Seq::empty();
    let mut out: Vec<usize> = Vec::new();
    let mut i: usize = 0;
    while i < bands.len()
        invariant
            i <= bands@.len(),
            flags.len() == i,
            forall|j: int|
                0 <= j < i ==> size_exceeds(
                    *ops,
                    bands@[j].phase,
                    1,
                    100,
                    #[trigger] flags[j],
                ),
            out@ == picked(places(bands@.len()), flags),
        decreases bands@.len() - i,
    {
        let size: Traced<T> = Traced::of(ops, bands[i].phase).abs(ops);
        let c: bool = over_ratio(ops, size.v, 1, 100);
        assert(exceeds_ratio(*ops, size.v, 1, 100, c));
        if c {
            out.push(i);
        }
        proof {
            let before = flags;
            flags = flags.push(c);
            assert(flags.drop_last() =~= before);
        }
        i += 1;
    }
    out
}

/// The sizes of the bands' drifts.
pub open spec fn drift_sizes<T>(per_band: Seq<BandDelta<T>>) -> Seq<Expr<T>> {
    Seq::new(per_band.len(), |k: int| un(Unary::Abs, val(per_band[k].phase_drift_deg)))
}

/// The bands that drifted by over a degree, the furthest first.
pub fn strong_drifts<T: Copy, A: Arith<T>>(ops: &A, per_band: &Vec<BandDelta<T>>) -> (out: Vec<
    (usize, T),
>)
    ensures
        exists|sizes: Seq<T>, order: Seq<(usize, T)>, flags: Seq<bool>|
            {
                &&& fits_all(*ops, drift_sizes(per_band@), sizes)
                &&& order.to_multiset() == placed(sizes, 0).to_multiset()
                &&& falling(*ops, order)
                &&& flags.len() == order.len()
                &&& forall|i: int|
                    0 <= i < order.len() ==> exceeds_ratio(
                        *ops,
                        order[i].1,
                        1,
                        1,
                        #[trigger] flags[i],
                    )
                &&& out@ == #[trigger] picked(order, flags)
                &&& #[trigger] placed(sizes, 0).len() == order.len()
            },
{
    let n: usize = per_band.len();
    let f = |k: usize| -> (r: Traced<T>)
        requires
            k < n,
        ensures
            r.ok(*ops),
            r.e@ == entry(drift_sizes(per_band@), k),
        { Traced::of(ops, per_band[k].phase_drift_deg).abs(ops) };
    let sizes: TracedVec<T> = build(ops, n, Ghost(drift_sizes(per_band@)), f);
    let order: Vec<(usize, T)> = sorted_peaks(ops, &sizes.v, 0);
    let ghost mut flags: Seq<bool> = Seq::empty();
    let mut out: Vec<(usize, T)> = Vec::new();
    let mut i: usize = 0;
    while i < order.len()
        invariant
            i <= order@.len(),
            flags.len() == i,
            forall|j: int|
                0 <= j < i ==> exceeds_ratio(*ops, order@[j].1, 1, 1, #[trigger] flags[j]),
            out@ == picked(order@, flags),
        decreases order@.len() - i,
    {
        let c: bool = over_ratio(ops, order[i].1, 1, 1);
        if c {
            out.push(order[i]);
        }
        proof {
            let before = flags;
            flags = flags.push(c);
            assert(flags.drop_last() =~= before);
        }
        i += 1;
    }
    proof {
        let by_band = placed(sizes.v@, 0);
        order@.to_multiset_ensures();
        by_band.to_multiset_ensures();
        assert(by_band.len() == order@.len());
        assert(out@ == picked(order@, flags));
    }
    out
}

/// The magnitudes of some bands.
pub open spec fn magnitudes_of<T>(bands: Seq<BandState<T>>) -> Seq<T> {
    bands.map_values(|b: BandState<T>| b.mag)
}

/// The magnitudes of some bands together, and their mean.
pub fn magnitude_sums<T: Copy, A: Arith<T>>(ops: &A, bands: &Vec<BandState<T>>) -> (out: (T, T))
    ensures
        fits(*ops, total_of(vals(magnitudes_of(bands@))), out.0),
        fits(*ops, mean_of(vals(magnitudes_of(bands@))), out.1),
{
    let mut mags: Vec<T> = Vec::new();
    let mut i: usize = 0;
    while i < bands.len()
        invariant
            i <= bands@.len(),
            mags@ == magnitudes_of(bands@.take(i as int)),
        decreases bands@.len() - i,
    {
        mags.push(bands[i].mag);
        i += 1;
        assert(bands@.take(i as int).drop_last() =~= bands@.take(i - 1));
        assert(mags@ =~= magnitudes_of(bands@.take(i as int)));
    }
    assert(bands@.take(bands@.len() as int) =~= bands@);
    let xs: TracedVec<T> = traced(ops, &mags);
    (crate::arith::total(ops, &xs).v, mean_on(ops, &xs).v)
}

/// A part of a whole in hundredths.
pub open spec fn percent_of<T>(part: usize, whole: usize) -> Expr<T> {
    times(over(Expr::Count(part), Expr::Count(whole)), Expr::Ratio(100, 1))
}

/// The bands that behave alike for all words, in hundredths of all bands, and the rest.
pub fn census_percents<T: Copy, A: Arith<T>>(ops: &A, universal: usize, n_bands: usize) -> (out: (
    T,
    T,
))
    ensures
        fits(*ops, percent_of(universal, n_bands), out.0),
        fits(*ops, minus(Expr::Ratio(100, 1), percent_of(universal, n_bands)), out.1),
{
    let share: Traced<T> = Traced::count(ops, universal).over(ops, Traced::count(ops, n_bands)).times(
        ops,
        Traced::ratio(ops, 100, 1),
    );
    (share.v, Traced::ratio(ops, 100, 1).minus(ops, share).v)
}

/// Whether the differences between bands cluster more than the bands themselves.
pub fn clusters_across<T: Copy, A: Arith<T>>(ops: &A, differential: T, per_band: T) -> (c: bool)
    ensures
        test_is(*ops, Test::Exceeds, differential, per_band, c),
{
    holds(ops, Test::Exceeds, differential, per_band)
}

/// Whether a spectrum is concentrated: its entropy is below seven tenths.
pub fn is_concentrated<T: Copy, A: Arith<T>>(ops: &A, entropy: T) -> (c: bool)
    ensures
        exists|limit: T| #[trigger]
            test_is(*ops, Test::Exceeds, limit, entropy, c) && fits(
                *ops,
                Expr::Ratio(7, 10),
                limit,
            ),
{
    let limit: Traced<T> = Traced::ratio(ops, 7, 10);
    let c: bool = holds(ops, Test::Exceeds, limit.v, entropy);
    assert(test_is(*ops, Test::Exceeds, limit.v, entropy, c));
    c
}

/// The time of one iteration; of none it is zero.
pub fn per_iteration<T: Copy, A: Arith<T>>(ops: &A, time: T, n_iters: usize) -> (out: T)
    ensures
        fits(
            *ops,
            if n_iters > 0 {
                over(val(time), Expr::Count(n_iters))
            } else {
                zero()
            },
            out,
        ),
{
    if n_iters > 0 {
        Traced::of(ops, time).over(ops, Traced::count(ops, n_iters)).v
    } else {
        Traced::ratio(ops, 0, 1).v
    }
}

} // verus!
