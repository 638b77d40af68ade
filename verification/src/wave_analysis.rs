//! What a trained model has learned, read off the phases of its states.

use vstd::prelude::*;
use crate::arith::{Arith, Test, Traced, TracedVec, build, choose_on, holds, total};
#[allow(unused_imports)]
use crate::arith::{
    Expr, Unary, angle, entry, fits, fits_all, larger, minus, one, over, pick, plus, test_is, times,
    total_of, un, val, vals, zero,
};
use crate::attention::untraced_rows;
#[allow(unused_imports)]
use crate::attention::rows_fit;
use crate::coherence::{argmax, phases_on};
#[allow(unused_imports)]
use crate::coherence::{last_top, phases_of};
use crate::layers::{mean_on, traced};
#[allow(unused_imports)]
use crate::layers::mean_of;
use crate::proj::matrix_column;
#[allow(unused_imports)]
use crate::proj::column_vals;
use crate::statistics::over_ratio;
#[allow(unused_imports)]
use crate::statistics::exceeds_ratio;
#[allow(unused_imports)]
use crate::sub_harmonic::{
    first_peak, pairs_in, phase_rows, resultant_of, states_cover, turned,
};
use crate::sub_harmonic::{cosines_on, phase_rows_on, resultant_on, sines_on};

verus! {

/// How well two phases agree at a harmonic.
pub open spec fn coherence_of<T>(a: Expr<T>, b: Expr<T>, n: Expr<T>) -> Expr<T> {
    un(Unary::Cos, times(n, minus(a, b)))
}

fn coherence_on<T: Copy, A: Arith<T>>(ops: &A, a: Traced<T>, b: Traced<T>, n: Traced<T>) -> (out:
    Traced<T>)
    requires
        a.ok(*ops),
        b.ok(*ops),
        n.ok(*ops),
    ensures
        out.ok(*ops),
        out.e@ == coherence_of(a.e@, b.e@, n.e@),
{
    n.times(ops, a.minus(ops, b)).cos(ops)
}

/// How well two phases agree at a harmonic: one at the first, opposition at the second.
pub fn harmonic_coherence<T: Copy, A: Arith<T>>(ops: &A, theta_a: T, theta_b: T, n: T) -> (out: T)
    ensures
        fits(*ops, coherence_of(val(theta_a), val(theta_b), val(n)), out),
{
    coherence_on(ops, Traced::of(ops, theta_a), Traced::of(ops, theta_b), Traced::of(ops, n)).v
}

/// The phases of a state's bands.
pub fn extract_phases<T: Copy, A: Arith<T>>(ops: &A, hidden: &[T], n_bands: usize) -> (out: Vec<T>)
    requires
        2 * n_bands <= hidden@.len(),
    ensures
        fits_all(*ops, phases_of(vals(hidden@), n_bands as int), out@),
{
    phases_on(ops, &traced(ops, hidden), n_bands).v
}

/// The phases of every state's bands.
pub fn extract_all_phases<T: Copy, A: Arith<T>>(ops: &A, hidden: &Vec<Vec<T>>, n_bands: usize) -> (out:
    Vec<Vec<T>>)
    requires
        states_cover(hidden@, n_bands as int),
    ensures
        rows_fit(*ops, phase_rows(hidden@, n_bands as int), out@),
{
    let rows: Vec<TracedVec<T>> = phase_rows_on(ops, hidden, n_bands);
    untraced_rows(ops, rows)
}

/// How dispersed angles are: one less the length of their mean, one without angles.
pub open spec fn dispersion_of<T>(angles: Seq<Expr<T>>) -> Expr<T> {
    if angles.len() == 0 {
        one()
    } else {
        minus(one(), resultant_of(angles))
    }
}

fn dispersion_on<T: Copy, A: Arith<T>>(ops: &A, angles: &TracedVec<T>) -> (out: Traced<T>)
    requires
        angles.ok(*ops),
    ensures
        out.ok(*ops),
        out.e@ == dispersion_of(angles.e@),
{
    let unit: Traced<T> = Traced::ratio(ops, 1, 1);
    if angles.len() == 0 {
        unit
    } else {
        unit.minus(ops, resultant_on(ops, angles))
    }
}

/// How dispersed angles are: zero where all are the same, one where they are uniform.
pub fn circular_variance<T: Copy, A: Arith<T>>(ops: &A, phases: &[T]) -> (out: T)
    ensures
        fits(*ops, dispersion_of(vals(phases@)), out),
{
    dispersion_on(ops, &traced(ops, phases)).v
}

/// How closely angles keep together: one less their dispersion.
pub fn mean_resultant_length<T: Copy, A: Arith<T>>(ops: &A, phases: &[T]) -> (out: T)
    ensures
        fits(*ops, minus(one(), dispersion_of(vals(phases@))), out),
{
    Traced::ratio(ops, 1, 1).minus(ops, dispersion_on(ops, &traced(ops, phases))).v
}

/// Number of bands that both vectors have.
pub open spec fn shared_len<T>(a: Seq<T>, b: Seq<T>) -> int {
    if a.len() <= b.len() {
        a.len() as int
    } else {
        b.len() as int
    }
}

/// How well the bands agree at a harmonic, band by band.
pub open spec fn agreements<T>(a: Seq<Expr<T>>, b: Seq<Expr<T>>, n: usize, signed: bool) -> Seq<
    Expr<T>,
> {
    Seq::new(
        shared_len(a, b) as nat,
        |k: int|
            {
                let c = coherence_of(a[k], b[k], Expr::Count(n));
                if signed {
                    c
                } else {
                    un(Unary::Abs, c)
                }
            },
    )
}

/// How well the bands agree at a harmonic, averaged.
pub open spec fn agreement<T>(a: Seq<Expr<T>>, b: Seq<Expr<T>>, n: usize, signed: bool) -> Expr<T> {
    over(total_of(agreements(a, b, n, signed)), Expr::Count(a.len() as usize))
}

fn agreement_on<T: Copy, A: Arith<T>>(
    ops: &A,
    a: &TracedVec<T>,
    b: &TracedVec<T>,
    n: usize,
    signed: bool,
) -> (out: Traced<T>)
    requires
        a.ok(*ops),
        b.ok(*ops),
    ensures
        out.ok(*ops),
        out.e@ == agreement(a.e@, b.e@, n, signed),
{
    let (la, lb): (usize, usize) = (a.len(), b.len());
    let m: usize = if la <= lb {
        la
    } else {
        lb
    };
    let h: Traced<T> = Traced::count(ops, n);
    let f = |k: usize| -> (r: Traced<T>)
        requires
            k < m,
        ensures
            r.ok(*ops),
            r.e@ == entry(agreements(a.e@, b.e@, n, signed), k),
    {
        let c: Traced<T> = coherence_on(ops, a.get(ops, k), b.get(ops, k), h);
        if signed {
            c
        } else {
            c.abs(ops)
        }
    };
    let each: TracedVec<T> = build(ops, m, Ghost(agreements(a.e@, b.e@, n, signed)), f);
    total(ops, &each).over(ops, Traced::count(ops, la))
}

/// The agreements at the harmonics from one to `max_n`.
pub open spec fn spectrum_of<T>(a: Seq<Expr<T>>, b: Seq<Expr<T>>, max_n: int, signed: bool) -> Seq<
    Expr<T>,
> {
    Seq::new(max_n as nat, |i: int| agreement(a, b, (i + 1) as usize, signed))
}

/// The agreement of two vectors of phases at every harmonic from one to `max_n`.
pub fn harmonic_spectrum<T: Copy, A: Arith<T>>(
    ops: &A,
    phases_a: &[T],
    phases_b: &[T],
    max_n: usize,
) -> (out: Vec<T>)
    requires
        max_n < usize::MAX,
    ensures
        fits_all(
            *ops,
            spectrum_of(vals(phases_a@), vals(phases_b@), max_n as int, true),
            out@,
        ),
{
    let a: TracedVec<T> = traced(ops, phases_a);
    let b: TracedVec<T> = traced(ops, phases_b);
    let f = |i: usize| -> (r: Traced<T>)
        requires
            i < max_n,
        ensures
            r.ok(*ops),
            r.e@ == entry(spectrum_of(a.e@, b.e@, max_n as int, true), i),
    {
        agreement_on(ops, &a, &b, i + 1, true)
    };
    let out: TracedVec<T> = build(
        ops,
        max_n,
        Ghost(spectrum_of(a.e@, b.e@, max_n as int, true)),
        f,
    );
    out.v
}

/// The largest of the first `n` entries, no less than zero.
pub open spec fn peak_of<T>(es: Seq<Expr<T>>, n: int) -> Expr<T>
    decreases n,
{
    if n <= 0 {
        zero()
    } else {
        pick(Test::Exceeds, es[n - 1], peak_of(es, n - 1), es[n - 1], peak_of(es, n - 1))
    }
}

/// The best agreement of two vectors of phases over the harmonics up to `max_n`.
pub open spec fn best_of<T>(a: Seq<Expr<T>>, b: Seq<Expr<T>>, max_n: int) -> Expr<T> {
    peak_of(spectrum_of(a, b, max_n, false), max_n)
}

/// The harmonic of a peak: the first one where nothing agrees.
pub open spec fn harmonic_at(at: Option<int>) -> int {
    match at {
        Some(i) => i + 1,
        None => 1,
    }
}

/// The harmonic at which `best` was reached.
pub open spec fn reached_at<T: Copy, A: Arith<T>>(
    ops: A,
    es: Seq<Expr<T>>,
    best: T,
    harmonic: int,
) -> bool {
    exists|xs: Seq<T>, start: T, at: Option<int>|
        fits_all(ops, es, xs) && fits(ops, zero(), start) && #[trigger] first_peak(
            ops,
            start,
            xs,
            xs.len() as int,
            at,
            best,
        ) && harmonic == harmonic_at(at)
}

fn best_on<T: Copy, A: Arith<T>>(ops: &A, a: &TracedVec<T>, b: &TracedVec<T>, max_n: usize) -> (res: (
    Traced<T>,
    usize,
))
    requires
        a.ok(*ops),
        b.ok(*ops),
        max_n < usize::MAX,
    ensures
        res.0.ok(*ops),
        res.0.e@ == best_of(a.e@, b.e@, max_n as int),
        reached_at(
            *ops,
            spectrum_of(a.e@, b.e@, max_n as int, false),
            res.0.v,
            res.1 as int,
        ),
{
    let ghost es = spectrum_of(a.e@, b.e@, max_n as int, false);
    let start: Traced<T> = Traced::ratio(ops, 0, 1);
    let mut best: Traced<T> = start;
    let mut best_n: usize = 1;
    let ghost mut at: Option<int> = None;
    let mut seen: TracedVec<T> = TracedVec::new(ops);
    let mut i: usize = 0;
    assert(seen.e@ =~= es.take(0));
    while i < max_n
        invariant
            a.ok(*ops),
            b.ok(*ops),
            max_n < usize::MAX,
            es == spectrum_of(a.e@, b.e@, max_n as int, false),
            start.ok(*ops),
            start.e@ == zero::<T>(),
            i <= max_n,
            seen.ok(*ops),
            seen.e@ == es.take(i as int),
            best.ok(*ops),
            best.e@ == peak_of(es, i as int),
            first_peak(*ops, start.v, seen.v@, i as int, at, best.v),
            best_n == harmonic_at(at),
        decreases max_n - i,
    {
        let c: Traced<T> = agreement_on(ops, a, b, i + 1, false);
        let ghost held = (at, best.v);
        let ghost before = seen.v@;
        let (next, over): (Traced<T>, bool) = choose_on(ops, Test::Exceeds, c, best, c, best);
        best = next;
        seen.push(ops, c);
        if over {
            best_n = i + 1;
            proof {
                at = Some(i as int);
            }
        }
        i += 1;
        proof {
            assert(seen.e@ =~= es.take(i as int));
            lemma_peak_prefix(*ops, start.v, before, seen.v@, i - 1, held.0, held.1);
            assert(test_is(*ops, Test::Exceeds, seen.v@[i - 1], held.1, over));
        }
    }
    proof {
        assert(es.take(max_n as int) =~= es);
        assert(fits_all(*ops, es, seen.v@));
        assert(fits(*ops, zero(), start.v));
    }
    (best, best_n)
}

/// A peak depends only on the entries up to it.
proof fn lemma_peak_prefix<T: Copy, A: Arith<T>>(
    ops: A,
    start: T,
    a: Seq<T>,
    b: Seq<T>,
    n: int,
    at: Option<int>,
    v: T,
)
    requires
        0 <= n <= a.len() <= b.len(),
        forall|i: int| 0 <= i < n ==> a[i] == #[trigger] b[i],
        first_peak(ops, start, a, n, at, v),
    ensures
        first_peak(ops, start, b, n, at, v),
    decreases n,
{
    if n > 0 {
        let (held, over): ((Option<int>, T), bool) = choose|held: (Option<int>, T), over: bool|
            first_peak(ops, start, a, n - 1, held.0, held.1) && #[trigger] test_is(
                ops,
                Test::Exceeds,
                a[n - 1],
                held.1,
                over,
            ) && (if over {
                at == Some(n - 1) && v == a[n - 1]
            } else {
                at == held.0 && v == held.1
            });
        lemma_peak_prefix(ops, start, a, b, n - 1, held.0, held.1);
        assert(a[n - 1] == b[n - 1]);
        assert(test_is(ops, Test::Exceeds, b[n - 1], held.1, over));
    }
}

/// The best agreement of two vectors of phases over the harmonics up to `max_n`, without
/// sign, and the first harmonic at which it is reached.
pub fn best_harmonic_coherence<T: Copy, A: Arith<T>>(
    ops: &A,
    phases_a: &[T],
    phases_b: &[T],
    max_n: usize,
) -> (res: (T, usize))
    requires
        max_n < usize::MAX,
    ensures
        fits(*ops, best_of(vals(phases_a@), vals(phases_b@), max_n as int), res.0),
        reached_at(
            *ops,
            spectrum_of(vals(phases_a@), vals(phases_b@), max_n as int, false),
            res.0,
            res.1 as int,
        ),
{
    let (best, n) = best_on(ops, &traced(ops, phases_a), &traced(ops, phases_b), max_n);
    (best.v, n)
}

/// The phases of band `band` at given positions.
pub open spec fn span_band<T>(
    phases: Seq<Vec<T>>,
    positions: Seq<usize>,
    band: int,
) -> Seq<Expr<T>> {
    Seq::new(positions.len(), |i: int| val(phases[positions[i] as int]@[band]))
}

/// The mean direction of every band over a span; that of a single position is as it is.
pub open spec fn span_of<T>(phases: Seq<Vec<T>>, positions: Seq<usize>) -> Seq<Expr<T>> {
    if positions.len() == 1 {
        vals(phases[positions[0] as int]@)
    } else {
        Seq::new(
            phases[0]@.len(),
            |k: int|
                angle(
                    total_of(turned(Unary::Sin, span_band(phases, positions, k))),
                    total_of(turned(Unary::Cos, span_band(phases, positions, k))),
                ),
        )
    }
}

/// A span of positions of phases that are as many everywhere.
pub open spec fn span_in<T>(phases: Seq<Vec<T>>, positions: Seq<usize>) -> bool {
    &&& phases.len() > 0
    &&& forall|i: int| 0 <= i < positions.len() ==> (#[trigger] positions[i]) < phases.len()
    &&& forall|p: int|
        0 <= p < phases.len() ==> (#[trigger] phases[p])@.len() == phases[0]@.len()
}

fn span_on<T: Copy, A: Arith<T>>(ops: &A, phases: &Vec<Vec<T>>, positions: &Vec<usize>) -> (out:
    TracedVec<T>)
    requires
        span_in(phases@, positions@),
    ensures
        out.ok(*ops),
        out.e@ == span_of(phases@, positions@),
{
    let m: usize = positions.len();
    if m == 1 {
        assert(positions@[0] < phases@.len());
        return traced(ops, &phases[positions[0]]);
    }
    let n: usize = phases[0].len();
    let f = |k: usize| -> (r: Traced<T>)
        requires
            k < n,
        ensures
            r.ok(*ops),
            r.e@ == entry(span_of(phases@, positions@), k),
    {
        let g = |i: usize| -> (r: Traced<T>)
            requires
                i < m,
            ensures
                r.ok(*ops),
                r.e@ == entry(span_band(phases@, positions@, k as int), i),
        {
            assert(positions@[i as int] < phases@.len());
            let p: usize = positions[i];
            assert(phases@[p as int]@.len() == phases@[0]@.len());
            Traced::of(ops, phases[p][k])
        };
        let angles: TracedVec<T> = build(
            ops,
            m,
            Ghost(span_band(phases@, positions@, k as int)),
            g,
        );
        let c: Traced<T> = total(ops, &cosines_on(ops, &angles));
        let s: Traced<T> = total(ops, &sines_on(ops, &angles));
        s.angle(ops, c)
    };
    build(ops, n, Ghost(span_of(phases@, positions@)), f)
}

/// The mean direction of every band over the positions of a word.
pub fn average_phases_over_span<T: Copy, A: Arith<T>>(
    ops: &A,
    phases: &Vec<Vec<T>>,
    positions: &Vec<usize>,
) -> (out: Vec<T>)
    requires
        span_in(phases@, positions@),
    ensures
        fits_all(*ops, span_of(phases@, positions@), out@),
{
    span_on(ops, phases, positions).v
}

/// How well pairs agree, related ones and others, and the ratio of the two.
pub struct DiscriminationResult<T> {
    pub related_mean: T,
    pub random_mean: T,
    pub ratio: T,
}

/// A mean over pairs: zero where there are none.
pub open spec fn pair_mean<T>(each: Seq<Expr<T>>) -> Expr<T> {
    if each.len() == 0 {
        zero()
    } else {
        over(total_of(each), Expr::Count(each.len() as usize))
    }
}

fn pair_mean_on<T: Copy, A: Arith<T>>(ops: &A, each: &TracedVec<T>) -> (out: Traced<T>)
    requires
        each.ok(*ops),
    ensures
        out.ok(*ops),
        out.e@ == pair_mean(each.e@),
{
    let n: usize = each.len();
    if n == 0 {
        Traced::ratio(ops, 0, 1)
    } else {
        total(ops, each).over(ops, Traced::count(ops, n))
    }
}

/// How much better related pairs agree: the others count as no less than a thousandth.
pub open spec fn contrast<T>(related: Expr<T>, random: Expr<T>) -> Expr<T> {
    over(related, larger(random, Expr::Ratio(1, 1000)))
}

/// The best agreements of pairs of positions.
pub open spec fn pair_bests<T>(phases: Seq<Vec<T>>, pairs: Seq<(usize, usize)>, max_n: int) -> Seq<
    Expr<T>,
> {
    Seq::new(
        pairs.len(),
        |i: int|
            best_of(
                vals(phases[pairs[i].0 as int]@),
                vals(phases[pairs[i].1 as int]@),
                max_n,
            ),
    )
}

fn pair_bests_on<T: Copy, A: Arith<T>>(
    ops: &A,
    phases: &Vec<Vec<T>>,
    pairs: &[(usize, usize)],
    max_n: usize,
) -> (out: TracedVec<T>)
    requires
        pairs_in(pairs@, phases@.len() as int),
        max_n < usize::MAX,
    ensures
        out.ok(*ops),
        out.e@ == pair_bests(phases@, pairs@, max_n as int),
{
    let n: usize = pairs.len();
    let f = |i: usize| -> (r: Traced<T>)
        requires
            i < n,
        ensures
            r.ok(*ops),
            r.e@ == entry(pair_bests(phases@, pairs@, max_n as int), i),
    {
        let (a, b): (usize, usize) = pairs[i];
        assert(pairs@[i as int].0 < phases@.len() && pairs@[i as int].1 < phases@.len());
        best_on(ops, &traced(ops, &phases[a]), &traced(ops, &phases[b]), max_n).0
    };
    build(ops, n, Ghost(pair_bests(phases@, pairs@, max_n as int)), f)
}

/// A result fits the agreements of its pairs.
pub open spec fn discriminates<T: Copy, A: Arith<T>>(
    ops: A,
    related: Seq<Expr<T>>,
    random: Seq<Expr<T>>,
    r: DiscriminationResult<T>,
) -> bool {
    &&& fits(ops, pair_mean(related), r.related_mean)
    &&& fits(ops, pair_mean(random), r.random_mean)
    &&& fits(ops, contrast(pair_mean(related), pair_mean(random)), r.ratio)
}

fn result_on<T: Copy, A: Arith<T>>(ops: &A, related: &TracedVec<T>, random: &TracedVec<T>) -> (out: (
    DiscriminationResult<T>,
    Traced<T>,
))
    requires
        related.ok(*ops),
        random.ok(*ops),
    ensures
        discriminates(*ops, related.e@, random.e@, out.0),
        out.1.ok(*ops),
        out.1.e@ == contrast(pair_mean(related.e@), pair_mean(random.e@)),
        out.1.v == out.0.ratio,
{
    let a: Traced<T> = pair_mean_on(ops, related);
    let b: Traced<T> = pair_mean_on(ops, random);
    let ratio: Traced<T> = a.over(ops, b.larger(ops, Traced::ratio(ops, 1, 1000)));
    (DiscriminationResult { related_mean: a.v, random_mean: b.v, ratio: ratio.v }, ratio)
}

/// How well the phases tell related positions from others.
pub fn semantic_discrimination<T: Copy, A: Arith<T>>(
    ops: &A,
    phases: &Vec<Vec<T>>,
    related_pairs: &[(usize, usize)],
    random_pairs: &[(usize, usize)],
    max_harmonic: usize,
) -> (out: DiscriminationResult<T>)
    requires
        pairs_in(related_pairs@, phases@.len() as int),
        pairs_in(random_pairs@, phases@.len() as int),
        max_harmonic < usize::MAX,
    ensures
        discriminates(
            *ops,
            pair_bests(phases@, related_pairs@, max_harmonic as int),
            pair_bests(phases@, random_pairs@, max_harmonic as int),
            out,
        ),
{
    let a: TracedVec<T> = pair_bests_on(ops, phases, related_pairs, max_harmonic);
    let b: TracedVec<T> = pair_bests_on(ops, phases, random_pairs, max_harmonic);
    result_on(ops, &a, &b).0
}

/// The best agreements of pairs of spans.
pub open spec fn span_bests<T>(
    phases: Seq<Vec<T>>,
    pairs: Seq<(Vec<usize>, Vec<usize>)>,
    max_n: int,
) -> Seq<Expr<T>> {
    Seq::new(
        pairs.len(),
        |i: int|
            best_of(span_of(phases, pairs[i].0@), span_of(phases, pairs[i].1@), max_n),
    )
}

/// Pairs of spans that lie within the positions.
pub open spec fn spans_in<T>(phases: Seq<Vec<T>>, pairs: Seq<(Vec<usize>, Vec<usize>)>) -> bool {
    forall|i: int|
        0 <= i < pairs.len() ==> span_in(phases, (#[trigger] pairs[i]).0@) && span_in(
            phases,
            pairs[i].1@,
        )
}

fn span_bests_on<T: Copy, A: Arith<T>>(
    ops: &A,
    phases: &Vec<Vec<T>>,
    pairs: &Vec<(Vec<usize>, Vec<usize>)>,
    max_n: usize,
) -> (out: TracedVec<T>)
    requires
        spans_in(phases@, pairs@),
        max_n < usize::MAX,
    ensures
        out.ok(*ops),
        out.e@ == span_bests(phases@, pairs@, max_n as int),
{
    let n: usize = pairs.len();
    let f = |i: usize| -> (r: Traced<T>)
        requires
            i < n,
        ensures
            r.ok(*ops),
            r.e@ == entry(span_bests(phases@, pairs@, max_n as int), i),
    {
        assert(span_in(phases@, pairs@[i as int].0@) && span_in(phases@, pairs@[i as int].1@));
        let a: TracedVec<T> = span_on(ops, phases, &pairs[i].0);
        let b: TracedVec<T> = span_on(ops, phases, &pairs[i].1);
        best_on(ops, &a, &b, max_n).0
    };
    build(ops, n, Ghost(span_bests(phases@, pairs@, max_n as int)), f)
}

/// How well the phases tell related words from others, where a word may span positions.
pub fn semantic_discrimination_spans<T: Copy, A: Arith<T>>(
    ops: &A,
    phases: &Vec<Vec<T>>,
    related_pairs: &Vec<(Vec<usize>, Vec<usize>)>,
    random_pairs: &Vec<(Vec<usize>, Vec<usize>)>,
    max_harmonic: usize,
) -> (out: DiscriminationResult<T>)
    requires
        spans_in(phases@, related_pairs@),
        spans_in(phases@, random_pairs@),
        max_harmonic < usize::MAX,
    ensures
        discriminates(
            *ops,
            span_bests(phases@, related_pairs@, max_harmonic as int),
            span_bests(phases@, random_pairs@, max_harmonic as int),
            out,
        ),
{
    let a: TracedVec<T> = span_bests_on(ops, phases, related_pairs, max_harmonic);
    let b: TracedVec<T> = span_bests_on(ops, phases, random_pairs, max_harmonic);
    result_on(ops, &a, &b).0
}

/// How alike two sentences agree in corresponding pairs, pair by pair.
pub open spec fn consistencies<T>(
    phases_a: Seq<Vec<T>>,
    phases_b: Seq<Vec<T>>,
    pairs_a: Seq<(usize, usize)>,
    pairs_b: Seq<(usize, usize)>,
    max_n: int,
) -> Seq<Expr<T>> {
    Seq::new(
        shared_len(pairs_a, pairs_b) as nat,
        |i: int|
            minus(
                one(),
                un(
                    Unary::Abs,
                    minus(
                        pair_bests(phases_a, pairs_a, max_n)[i],
                        pair_bests(phases_b, pairs_b, max_n)[i],
                    ),
                ),
            ),
    )
}

/// How consistently two sentences relate the same roles: zero where there are none.
pub fn grammar_coherence<T: Copy, A: Arith<T>>(
    ops: &A,
    phases_a: &Vec<Vec<T>>,
    phases_b: &Vec<Vec<T>>,
    pairs_a: &[(usize, usize)],
    pairs_b: &[(usize, usize)],
    max_harmonic: usize,
) -> (out: T)
    requires
        pairs_in(pairs_a@, phases_a@.len() as int),
        pairs_in(pairs_b@, phases_b@.len() as int),
        max_harmonic < usize::MAX,
    ensures
        fits(
            *ops,
            if pairs_a@.len() == 0 {
                zero()
            } else {
                over(
                    total_of(
                        consistencies(
                            phases_a@,
                            phases_b@,
                            pairs_a@,
                            pairs_b@,
                            max_harmonic as int,
                        ),
                    ),
                    Expr::Count(pairs_a@.len() as usize),
                )
            },
            out,
        ),
{
    let n: usize = pairs_a.len();
    let m: usize = pairs_b.len();
    if n == 0 {
        return Traced::ratio(ops, 0, 1).v;
    }
    let a: TracedVec<T> = pair_bests_on(ops, phases_a, pairs_a, max_harmonic);
    let b: TracedVec<T> = pair_bests_on(ops, phases_b, pairs_b, max_harmonic);
    let both: usize = if n <= m {
        n
    } else {
        m
    };
    let unit: Traced<T> = Traced::ratio(ops, 1, 1);
    let f = |i: usize| -> (r: Traced<T>)
        requires
            i < both,
        ensures
            r.ok(*ops),
            r.e@ == entry(
                consistencies(phases_a@, phases_b@, pairs_a@, pairs_b@, max_harmonic as int),
                i,
            ),
    {
        unit.minus(ops, a.get(ops, i).minus(ops, b.get(ops, i)).abs(ops))
    };
    let each: TracedVec<T> = build(
        ops,
        both,
        Ghost(consistencies(phases_a@, phases_b@, pairs_a@, pairs_b@, max_harmonic as int)),
        f,
    );
    total(ops, &each).over(ops, Traced::count(ops, n)).v
}

/// The contrast of every layer.
pub open spec fn curve_of<T>(
    layers: Seq<Vec<Vec<T>>>,
    related: Seq<(usize, usize)>,
    random: Seq<(usize, usize)>,
    max_n: int,
) -> Seq<Expr<T>> {
    Seq::new(
        layers.len(),
        |l: int|
            contrast(
                pair_mean(pair_bests(layers[l]@, related, max_n)),
                pair_mean(pair_bests(layers[l]@, random, max_n)),
            ),
    )
}

/// How well every layer tells related positions from others.
pub fn depth_curve<T: Copy, A: Arith<T>>(
    ops: &A,
    layers: &Vec<Vec<Vec<T>>>,
    related_pairs: &[(usize, usize)],
    random_pairs: &[(usize, usize)],
    max_harmonic: usize,
) -> (out: Vec<T>)
    requires
        forall|l: int|
            0 <= l < layers@.len() ==> pairs_in(
                related_pairs@,
                (#[trigger] layers@[l])@.len() as int,
            ) && pairs_in(random_pairs@, layers@[l]@.len() as int),
        max_harmonic < usize::MAX,
    ensures
        fits_all(
            *ops,
            curve_of(layers@, related_pairs@, random_pairs@, max_harmonic as int),
            out@,
        ),
{
    let n: usize = layers.len();
    let f = |l: usize| -> (r: Traced<T>)
        requires
            l < n,
        ensures
            r.ok(*ops),
            r.e@ == entry(
                curve_of(layers@, related_pairs@, random_pairs@, max_harmonic as int),
                l,
            ),
    {
        assert(pairs_in(related_pairs@, layers@[l as int]@.len() as int));
        let a: TracedVec<T> = pair_bests_on(ops, &layers[l], related_pairs, max_harmonic);
        let b: TracedVec<T> = pair_bests_on(ops, &layers[l], random_pairs, max_harmonic);
        result_on(ops, &a, &b).1
    };
    let out: TracedVec<T> = build(
        ops,
        n,
        Ghost(curve_of(layers@, related_pairs@, random_pairs@, max_harmonic as int)),
        f,
    );
    out.v
}

/// The dispersion of every band over the positions.
pub open spec fn dispersions_of<T>(phases: Seq<Vec<T>>, n: int) -> Seq<Expr<T>> {
    Seq::new(n as nat, |k: int| dispersion_of(vals(column_vals(phases, k))))
}

/// Phases of at least `n` bands at every position.
pub open spec fn bands_cover<T>(phases: Seq<Vec<T>>, n: int) -> bool {
    forall|p: int| 0 <= p < phases.len() ==> n <= (#[trigger] phases[p])@.len()
}

fn dispersions_on<T: Copy, A: Arith<T>>(ops: &A, phases: &Vec<Vec<T>>, n: usize) -> (out: TracedVec<T>)
    requires
        bands_cover(phases@, n as int),
    ensures
        out.ok(*ops),
        out.v@.len() == n,
        out.e@ == dispersions_of(phases@, n as int),
{
    let t: usize = phases.len();
    let f = |k: usize| -> (r: Traced<T>)
        requires
            k < n,
        ensures
            r.ok(*ops),
            r.e@ == entry(dispersions_of(phases@, n as int), k),
    {
        assert forall|i: int| 0 <= i < t implies k < (#[trigger] phases@[i])@.len() by {}
        assert(phases@.take(t as int) =~= phases@);
        dispersion_on(ops, &TracedVec::of(ops, matrix_column(phases, t, k)))
    };
    build(ops, n, Ghost(dispersions_of(phases@, n as int)), f)
}

/// How closely the phases of every band keep together over the positions.
pub open spec fn closeness_of<T>(phases: Seq<Vec<T>>, n: int) -> Seq<Expr<T>> {
    Seq::new(n as nat, |k: int| minus(one(), dispersions_of(phases, n)[k]))
}

/// How closely the phases keep together over the positions: the mean over the bands.
pub fn phase_clustering<T: Copy, A: Arith<T>>(ops: &A, phases: &Vec<Vec<T>>, n_bands: usize) -> (out: T)
    requires
        bands_cover(phases@, n_bands as int),
    ensures
        fits(*ops, mean_of(closeness_of(phases@, n_bands as int)), out),
{
    let cvs: TracedVec<T> = dispersions_on(ops, phases, n_bands);
    let unit: Traced<T> = Traced::ratio(ops, 1, 1);
    let f = |k: usize| -> (r: Traced<T>)
        requires
            k < n_bands,
        ensures
            r.ok(*ops),
            r.e@ == entry(closeness_of(phases@, n_bands as int), k),
    {
        unit.minus(ops, cvs.get(ops, k))
    };
    let each: TracedVec<T> = build(
        ops,
        n_bands,
        Ghost(closeness_of(phases@, n_bands as int)),
        f,
    );
    mean_on(ops, &each).v
}

/// `a` may stand before `b` in rising order.
pub open spec fn rises<T: Copy, A: Arith<T>>(ops: A, a: T, b: T) -> bool {
    test_is(ops, Test::Exceeds, a, b, false) || test_is(ops, Test::Exceeds, b, a, true)
}

/// A rising order.
pub open spec fn rising<T: Copy, A: Arith<T>>(ops: A, xs: Seq<T>) -> bool {
    forall|i: int| 0 <= i < xs.len() - 1 ==> rises(ops, #[trigger] xs[i], xs[i + 1])
}

/// The entries in rising order.
pub fn sorted<T: Copy, A: Arith<T>>(ops: &A, xs: &Vec<T>) -> (out: Vec<T>)
    ensures
        out@.len() == xs@.len(),
        out@.to_multiset() == xs@.to_multiset(),
        rising(*ops, out@),
{
    let n: usize = xs.len();
    let mut out: Vec<T> = Vec::new();
    let mut i: usize = 0;
    assert(xs@.take(0) =~= Seq::<T>::empty());
    while i < n
        invariant
            n == xs@.len(),
            i <= n,
            out@.len() == i,
            out@.to_multiset() == xs@.take(i as int).to_multiset(),
            rising(*ops, out@),
        decreases n - i,
    {
        let x: T = xs[i];
        let ghost before = out@;
        let mut at: usize = i;
        while at > 0 && holds(ops, Test::Exceeds, out[at - 1], x)
            invariant_except_break
                at <= i,
                out@ == before,
                out@.len() == i,
                at < i ==> rises(*ops, x, before[at as int]),
            ensures
                at <= i,
                out@ == before,
                at < i ==> rises(*ops, x, before[at as int]),
                at > 0 ==> rises(*ops, before[at - 1], x),
            decreases at,
        {
            at -= 1;
        }
        out.insert(at, x);
        proof {
            assert(out@ =~= before.insert(at as int, x));
            vstd::seq_lib::to_multiset_insert(before, at as int, x);
            assert(xs@.take(i + 1) =~= xs@.take(i as int).push(x));
            vstd::seq_lib::to_multiset_build(xs@.take(i as int), x);
            assert forall|k: int| 0 <= k < out@.len() - 1 implies rises(
                *ops,
                #[trigger] out@[k],
                out@[k + 1],
            ) by {
                if k + 1 < at {
                    assert(out@[k] == before[k] && out@[k + 1] == before[k + 1]);
                } else if k > at {
                    assert(out@[k] == before[k - 1] && out@[k + 1] == before[k]);
                }
            }
        }
        i += 1;
    }
    assert(xs@.take(n as int) =~= xs@);
    out
}

/// `count` of the first `n` entries are less than `limit`.
pub open spec fn counts_below<T: Copy, A: Arith<T>>(
    ops: A,
    limit: T,
    xs: Seq<T>,
    n: int,
    count: int,
) -> bool
    decreases n,
{
    if n <= 0 {
        count == 0
    } else {
        exists|less: bool| #[trigger]
            test_is(ops, Test::Exceeds, limit, xs[n - 1], less) && counts_below(
                ops,
                limit,
                xs,
                n - 1,
                if less {
                    count - 1
                } else {
                    count
                },
            )
    }
}

/// How many entries are less than a limit.
pub fn count_below<T: Copy, A: Arith<T>>(ops: &A, limit: T, xs: &Vec<T>) -> (count: usize)
    ensures
        count <= xs@.len(),
        counts_below(*ops, limit, xs@, xs@.len() as int, count as int),
{
    let n: usize = xs.len();
    let mut count: usize = 0;
    let mut i: usize = 0;
    while i < n
        invariant
            n == xs@.len(),
            count <= i <= n,
            counts_below(*ops, limit, xs@, i as int, count as int),
        decreases n - i,
    {
        let less: bool = holds(ops, Test::Exceeds, limit, xs[i]);
        if less {
            count += 1;
        }
        i += 1;
        assert(test_is(*ops, Test::Exceeds, limit, xs@[i - 1], less));
    }
    count
}

/// The width of a bin: a share of the range.
pub open spec fn bin_width<T>(low: T, high: T, n_bins: usize) -> Expr<T> {
    over(minus(val(high), val(low)), Expr::Count(n_bins))
}

/// Entry `x` falls into bin `at`: counted in widths of no less than a thousandth, the last
/// bin taking what lies beyond.
pub open spec fn in_bin<T: Copy, A: Arith<T>>(
    ops: A,
    x: T,
    low: T,
    width: T,
    n_bins: int,
    at: int,
) -> bool {
    exists|q: T, w: usize|
        fits(
            ops,
            over(minus(val(x), val(low)), larger(val(width), Expr::Ratio(1, 1000))),
            q,
        ) && #[trigger] call_ensures(A::whole, (&ops, q), w) && at == (if w < n_bins - 1 {
            w as int
        } else {
            n_bins - 1
        })
}

/// The first `n` entries, counted into bins.
pub open spec fn binned<T: Copy, A: Arith<T>>(
    ops: A,
    xs: Seq<T>,
    low: T,
    width: T,
    n: int,
    bins: Seq<usize>,
) -> bool
    decreases n,
{
    if n <= 0 {
        forall|b: int| 0 <= b < bins.len() ==> #[trigger] bins[b] == 0
    } else {
        exists|at: int|
            0 <= at < bins.len() && #[trigger] in_bin(
                ops,
                xs[n - 1],
                low,
                width,
                bins.len() as int,
                at,
            ) && bins[at] > 0 && binned(
                ops,
                xs,
                low,
                width,
                n - 1,
                bins.update(at, (bins[at] - 1) as usize),
            )
    }
}

/// The sum of counts.
pub open spec fn count_sum(bins: Seq<usize>) -> int
    decreases bins.len(),
{
    if bins.len() == 0 {
        0
    } else {
        count_sum(bins.drop_last()) + bins.last()
    }
}

proof fn lemma_sum_update(bins: Seq<usize>, at: int, v: usize)
    requires
        0 <= at < bins.len(),
    ensures
        count_sum(bins.update(at, v)) == count_sum(bins) - bins[at] + v,
    decreases bins.len(),
{
    if at == bins.len() - 1 {
        assert(bins.update(at, v).drop_last() =~= bins.drop_last());
    } else {
        lemma_sum_update(bins.drop_last(), at, v);
        assert(bins.update(at, v).drop_last() =~= bins.drop_last().update(at, v));
    }
}

proof fn lemma_sum_bound(bins: Seq<usize>, at: int)
    requires
        0 <= at < bins.len(),
    ensures
        bins[at] <= count_sum(bins),
        0 <= count_sum(bins),
    decreases bins.len(),
{
    lemma_sum_positive(bins.drop_last());
    if at < bins.len() - 1 {
        lemma_sum_bound(bins.drop_last(), at);
    }
}

proof fn lemma_sum_positive(bins: Seq<usize>)
    ensures
        0 <= count_sum(bins),
    decreases bins.len(),
{
    if bins.len() > 0 {
        lemma_sum_positive(bins.drop_last());
    }
}

proof fn lemma_sum_zero(bins: Seq<usize>)
    requires
        forall|b: int| 0 <= b < bins.len() ==> #[trigger] bins[b] == 0,
    ensures
        count_sum(bins) == 0,
    decreases bins.len(),
{
    if bins.len() > 0 {
        lemma_sum_zero(bins.drop_last());
    }
}

/// Counts entries into bins between `low` and `low` plus all widths. Every entry is counted
/// once.
pub fn count_bins<T: Copy, A: Arith<T>>(ops: &A, xs: &Vec<T>, low: T, width: T, n_bins: usize) -> (bins:
    Vec<usize>)
    requires
        n_bins > 0,
    ensures
        bins@.len() == n_bins,
        binned(*ops, xs@, low, width, xs@.len() as int, bins@),
        count_sum(bins@) == xs@.len(),
{
    let n: usize = xs.len();
    let mut bins: Vec<usize> = crate::seqs::filled(0usize, n_bins);
    proof {
        lemma_sum_zero(bins@);
    }
    let base: Traced<T> = Traced::of(ops, low);
    let unit: Traced<T> = Traced::of(ops, width).larger(ops, Traced::ratio(ops, 1, 1000));
    let mut i: usize = 0;
    while i < n
        invariant
            n == xs@.len(),
            n_bins > 0,
            base.ok(*ops),
            base.e@ == val(low),
            unit.ok(*ops),
            unit.e@ == larger(val(width), Expr::Ratio(1, 1000)),
            i <= n,
            bins@.len() == n_bins,
            binned(*ops, xs@, low, width, i as int, bins@),
            count_sum(bins@) == i,
        decreases n - i,
    {
        let q: Traced<T> = Traced::of(ops, xs[i]).minus(ops, base).over(ops, unit);
        let w: usize = ops.whole(q.v);
        let at: usize = if w < n_bins - 1 {
            w
        } else {
            n_bins - 1
        };
        let ghost before = bins@;
        proof {
            lemma_sum_bound(before, at as int);
        }
        let c: usize = bins[at];
        bins.set(at, c + 1);
        i += 1;
        proof {
            lemma_sum_update(before, at as int, (c + 1) as usize);
            assert(call_ensures(A::whole, (ops, q.v), w));
            assert(in_bin(*ops, xs@[i - 1], low, width, bins@.len() as int, at as int));
            assert(bins@.update(at as int, (bins@[at as int] - 1) as usize) =~= before);
        }
    }
    bins
}

/// Whether the middle of a distribution is empty enough for two peaks: its lowest bin among
/// the fourth to the sixth holds less than three tenths of the highest of all.
pub open spec fn two_peaks(bins: Seq<usize>) -> bool {
    exists|low: usize, high: usize|
        #![trigger is_least(bins, low), is_most(bins, high)]
        is_least(bins, low) && is_most(bins, high) && low < high * 30 / 100
}

/// The lowest of the fourth to the sixth bin.
pub open spec fn is_least(bins: Seq<usize>, low: usize) -> bool {
    &&& exists|b: int| 3 <= b < 6 && #[trigger] bins[b] == low
    &&& forall|b: int| 3 <= b < 6 ==> low <= #[trigger] bins[b]
}

/// The highest of all bins.
pub open spec fn is_most(bins: Seq<usize>, high: usize) -> bool {
    &&& exists|b: int| 0 <= b < bins.len() && #[trigger] bins[b] == high
    &&& forall|b: int| 0 <= b < bins.len() ==> #[trigger] bins[b] <= high
}

/// The highest of all bins, found from the left.
fn highest(bins: &Vec<usize>) -> (high: usize)
    requires
        bins@.len() > 0,
    ensures
        is_most(bins@, high),
{
    let n: usize = bins.len();
    let mut high: usize = bins[0];
    let mut i: usize = 1;
    assert(bins@[0] == high);
    while i < n
        invariant
            n == bins@.len(),
            1 <= i <= n,
            exists|b: int| 0 <= b < i && #[trigger] bins@[b] == high,
            forall|b: int| 0 <= b < i ==> #[trigger] bins@[b] <= high,
        decreases n - i,
    {
        if bins[i] > high {
            high = bins[i];
            assert(bins@[i as int] == high);
        }
        i += 1;
    }
    high
}

/// How the bands divide by their dispersion.
pub struct BandCensus<T> {
    pub universal: usize,
    pub word_specific: usize,
    pub mean_circular_variance: T,
    pub per_band_cv: Vec<T>,
    pub bimodal: bool,
}

/// A census fits the dispersions of its bands: bands below the median are universal, and the
/// distribution over ten bins tells whether the split is natural.
pub open spec fn census_fits<T: Copy, A: Arith<T>>(
    ops: A,
    phases: Seq<Vec<T>>,
    n: int,
    c: BandCensus<T>,
    order: Seq<T>,
) -> bool {
    let cvs = c.per_band_cv@;
    &&& fits_all(ops, dispersions_of(phases, n), cvs)
    &&& fits(ops, mean_of(dispersions_of(phases, n)), c.mean_circular_variance)
    &&& order.len() == n
    &&& order.to_multiset() == cvs.to_multiset()
    &&& rising(ops, order)
    &&& counts_below(ops, order[n / 2], cvs, n, c.universal as int)
    &&& c.word_specific == n - c.universal
    &&& exists|width: T, bins: Seq<usize>|
        fits(ops, bin_width(order[0], order[n - 1], 10), width) && bins.len() == 10
            && #[trigger] binned(ops, cvs, order[0], width, n, bins) && c.bimodal == two_peaks(bins)
}

/// Divides the bands by how dispersed their phases are over the positions.
pub fn band_census<T: Copy, A: Arith<T>>(ops: &A, phases: &Vec<Vec<T>>, n_bands: usize) -> (out:
    BandCensus<T>)
    requires
        n_bands > 0,
        n_bands <= usize::MAX / 30,
        bands_cover(phases@, n_bands as int),
    ensures
        exists|order: Seq<T>| #[trigger]
            census_fits(*ops, phases@, n_bands as int, out, order),
{
    let n: usize = n_bands;
    let cvs: TracedVec<T> = dispersions_on(ops, phases, n);
    let mean: Traced<T> = mean_on(ops, &cvs);
    let order: Vec<T> = sorted(ops, &cvs.v);
    let median: T = order[n / 2];
    let universal: usize = count_below(ops, median, &cvs.v);
    let low: T = order[0];
    let high: T = order[n - 1];
    let width: Traced<T> = Traced::of(ops, high).minus(ops, Traced::of(ops, low)).over(
        ops,
        Traced::count(ops, 10),
    );
    let bins: Vec<usize> = count_bins(ops, &cvs.v, low, width.v, 10);
    let most: usize = highest(&bins);
    let mut least: usize = bins[3];
    if bins[4] < least {
        least = bins[4];
    }
    if bins[5] < least {
        least = bins[5];
    }
    proof {
        let b = choose|b: int| 0 <= b < bins@.len() && #[trigger] bins@[b] == most;
        lemma_sum_bound(bins@, b);
        assert(is_least(bins@, least)) by {
            assert(bins@[3] >= least && bins@[4] >= least && bins@[5] >= least);
            assert(bins@[3] == least || bins@[4] == least || bins@[5] == least);
        }
    }
    let bimodal: bool = least < most * 30 / 100;
    proof {
        assert(bimodal == two_peaks(bins@)) by {
            if two_peaks(bins@) {
                let (l, h) = choose|l: usize, h: usize|
                    #![trigger is_least(bins@, l), is_most(bins@, h)]
                    is_least(bins@, l) && is_most(bins@, h) && l < h * 30 / 100;
                let i = choose|b: int| 3 <= b < 6 && #[trigger] bins@[b] == l;
                let j = choose|b: int| 3 <= b < 6 && #[trigger] bins@[b] == least;
                assert(l == least);
                let u = choose|b: int| 0 <= b < bins@.len() && #[trigger] bins@[b] == h;
                let v = choose|b: int| 0 <= b < bins@.len() && #[trigger] bins@[b] == most;
                assert(h == most);
            }
        }
    }
    let out = BandCensus {
        universal,
        word_specific: n - universal,
        mean_circular_variance: mean.v,
        per_band_cv: cvs.v,
        bimodal,
    };
    assert(binned(*ops, cvs.v@, order@[0], width.v, n as int, bins@));
    assert(fits_all(*ops, dispersions_of(phases@, n as int), out.per_band_cv@));
    assert(fits(*ops, mean_of(dispersions_of(phases@, n as int)), out.mean_circular_variance));
    assert(counts_below(*ops, order@[n as int / 2], out.per_band_cv@, n as int, universal as int));
    assert(fits(*ops, bin_width(order@[0], order@[n - 1], 10), width.v));
    assert(census_fits(*ops, phases@, n as int, out, order@));
    out
}

/// Every band is either universal or specific to words.
pub proof fn law_census_divides_bands<T: Copy, A: Arith<T>>(
    ops: A,
    phases: Seq<Vec<T>>,
    n: int,
    c: BandCensus<T>,
    order: Seq<T>,
)
    requires
        census_fits(ops, phases, n, c, order),
    ensures
        c.universal + c.word_specific == n,
        c.per_band_cv@.len() == n,
{
}

/// A bin of a histogram: its bounds, how many it holds, how long its bar is, and whether it
/// lies in the lower half.
pub struct HistogramRow<T> {
    pub lo: T,
    pub hi: T,
    pub count: usize,
    pub bar_len: usize,
    pub universal: bool,
}

/// Length of the longest bar.
pub const BAR_WIDTH: usize = 40;

/// Length of a bar: a share of the longest.
pub open spec fn bar_of(count: int, most: int) -> int {
    count * BAR_WIDTH / (if most > 1 {
        most
    } else {
        1
    })
}

/// A row fits bin `i`.
pub open spec fn row_fits<T: Copy, A: Arith<T>>(
    ops: A,
    low: T,
    width: T,
    bins: Seq<usize>,
    most: int,
    i: int,
    r: HistogramRow<T>,
) -> bool {
    let lo = plus(val(low), times(Expr::Count(i as usize), val(width)));
    &&& fits(ops, lo, r.lo)
    &&& fits(ops, plus(lo, val(width)), r.hi)
    &&& r.count == bins[i]
    &&& r.bar_len == bar_of(bins[i] as int, most)
    &&& exists|half: T| #[trigger]
        test_is(ops, Test::Exceeds, half, r.lo, r.universal) && fits(ops, Expr::Ratio(1, 2), half)
}

/// The histogram of dispersions: a row per bin between the least and the greatest.
pub open spec fn histogram_fits<T: Copy, A: Arith<T>>(
    ops: A,
    cvs: Seq<T>,
    n_bins: int,
    rows: Seq<HistogramRow<T>>,
    order: Seq<T>,
    width: T,
    bins: Seq<usize>,
    most: usize,
) -> bool {
    &&& order.len() == cvs.len()
    &&& order.to_multiset() == cvs.to_multiset()
    &&& rising(ops, order)
    &&& fits(ops, bin_width(order[0], order[order.len() - 1], n_bins as usize), width)
    &&& bins.len() == n_bins
    &&& binned(ops, cvs, order[0], width, cvs.len() as int, bins)
    &&& is_most(bins, most)
    &&& rows.len() == n_bins
    &&& forall|i: int|
        0 <= i < n_bins ==> row_fits(
            ops,
            order[0],
            width,
            bins,
            most as int,
            i,
            #[trigger] rows[i],
        )
}

/// The histogram of dispersions.
pub fn cv_histogram<T: Copy, A: Arith<T>>(ops: &A, cvs: &Vec<T>, n_bins: usize) -> (rows: Vec<
    HistogramRow<T>,
>)
    requires
        cvs@.len() > 0,
        cvs@.len() <= usize::MAX / 40,
        n_bins > 0,
    ensures
        exists|order: Seq<T>, width: T, bins: Seq<usize>, most: usize| #[trigger]
            histogram_fits(*ops, cvs@, n_bins as int, rows@, order, width, bins, most),
{
    let order: Vec<T> = sorted(ops, cvs);
    let low: T = order[0];
    let high: T = order[order.len() - 1];
    let width: Traced<T> = Traced::of(ops, high).minus(ops, Traced::of(ops, low)).over(
        ops,
        Traced::count(ops, n_bins),
    );
    let bins: Vec<usize> = count_bins(ops, cvs, low, width.v, n_bins);
    let most: usize = highest(&bins);
    let half: Traced<T> = Traced::ratio(ops, 1, 2);
    let step: Traced<T> = Traced::of(ops, width.v);
    let base: Traced<T> = Traced::of(ops, low);
    let scale: usize = if most > 1 {
        most
    } else {
        1
    };
    let mut rows: Vec<HistogramRow<T>> = Vec::new();
    let mut i: usize = 0;
    while i < n_bins
        invariant
            cvs@.len() <= usize::MAX / 40,
            bins@.len() == n_bins,
            count_sum(bins@) == cvs@.len(),
            half.ok(*ops),
            half.e@ == Expr::<T>::Ratio(1, 2),
            step.ok(*ops),
            step.e@ == val(width.v),
            base.ok(*ops),
            base.e@ == val(low),
            scale == (if most > 1 {
                most
            } else {
                1
            }),
            i <= n_bins,
            rows@.len() == i,
            forall|k: int|
                0 <= k < i ==> row_fits(
                    *ops,
                    low,
                    width.v,
                    bins@,
                    most as int,
                    k,
                    #[trigger] rows@[k],
                ),
        decreases n_bins - i,
    {
        proof {
            lemma_sum_bound(bins@, i as int);
        }
        let lo: Traced<T> = base.plus(ops, Traced::count(ops, i).times(ops, step));
        let hi: Traced<T> = lo.plus(ops, step);
        let universal: bool = holds(ops, Test::Exceeds, half.v, lo.v);
        let bar_len: usize = bins[i] * BAR_WIDTH / scale;
        let row = HistogramRow { lo: lo.v, hi: hi.v, count: bins[i], bar_len, universal };
        assert(test_is(*ops, Test::Exceeds, half.v, row.lo, row.universal));
        assert(row_fits(*ops, low, width.v, bins@, most as int, i as int, row));
        rows.push(row);
        i += 1;
    }
    assert(histogram_fits(*ops, cvs@, n_bins as int, rows@, order@, width.v, bins@, most));
    rows
}

/// What a ratio of related to other pairs says.
#[derive(Clone, Copy, Debug, PartialEq, Eq, Structural)]
pub enum SemanticVerdict {
    Strong,
    Emerging,
    NotYet,
}

/// What the layer of the peak says.
#[derive(Clone, Copy, Debug, PartialEq, Eq, Structural)]
pub enum DepthVerdict {
    MostLayers,
    HalfDepth,
    Shallow,
}

/// What the clustering of phases says.
#[derive(Clone, Copy, Debug, PartialEq, Eq, Structural)]
pub enum ClusterVerdict {
    Structured,
    PartlyStructured,
    Random,
}

/// What the ratio says: strong above two, emerging above one and a half.
pub fn semantic_verdict<T: Copy, A: Arith<T>>(ops: &A, ratio: T) -> (v: SemanticVerdict)
    ensures
        match v {
            SemanticVerdict::Strong => exceeds_ratio(*ops, ratio, 2, 1, true),
            SemanticVerdict::Emerging => exceeds_ratio(*ops, ratio, 2, 1, false) && exceeds_ratio(
                *ops,
                ratio,
                3,
                2,
                true,
            ),
            SemanticVerdict::NotYet => exceeds_ratio(*ops, ratio, 2, 1, false) && exceeds_ratio(
                *ops,
                ratio,
                3,
                2,
                false,
            ),
        },
{
    if over_ratio(ops, ratio, 2, 1) {
        SemanticVerdict::Strong
    } else if over_ratio(ops, ratio, 3, 2) {
        SemanticVerdict::Emerging
    } else {
        SemanticVerdict::NotYet
    }
}

/// What the layer of the peak says: beyond three quarters of the layers, beyond half of
/// them, or neither.
pub fn depth_verdict(peak_layer: usize, n_layers: usize) -> (v: DepthVerdict)
    requires
        n_layers <= usize::MAX / 3,
    ensures
        v == (if peak_layer > n_layers * 3 / 4 {
            DepthVerdict::MostLayers
        } else if peak_layer > n_layers / 2 {
            DepthVerdict::HalfDepth
        } else {
            DepthVerdict::Shallow
        }),
{
    if peak_layer > n_layers * 3 / 4 {
        DepthVerdict::MostLayers
    } else if peak_layer > n_layers / 2 {
        DepthVerdict::HalfDepth
    } else {
        DepthVerdict::Shallow
    }
}

/// What the clustering says: structured above three tenths, partly above three twentieths.
pub fn cluster_verdict<T: Copy, A: Arith<T>>(ops: &A, clustering: T) -> (v: ClusterVerdict)
    ensures
        match v {
            ClusterVerdict::Structured => exceeds_ratio(*ops, clustering, 3, 10, true),
            ClusterVerdict::PartlyStructured => exceeds_ratio(*ops, clustering, 3, 10, false)
                && exceeds_ratio(*ops, clustering, 15, 100, true),
            ClusterVerdict::Random => exceeds_ratio(*ops, clustering, 3, 10, false)
                && exceeds_ratio(*ops, clustering, 15, 100, false),
        },
{
    if over_ratio(ops, clustering, 3, 10) {
        ClusterVerdict::Structured
    } else if over_ratio(ops, clustering, 15, 100) {
        ClusterVerdict::PartlyStructured
    } else {
        ClusterVerdict::Random
    }
}

/// The share of universal bands, in hundredths.
pub open spec fn universal_percent<T>(universal: usize, n_bands: usize) -> Expr<T> {
    times(over(Expr::Count(universal), Expr::Count(n_bands)), Expr::Ratio(100, 1))
}

/// The share of universal bands lies between a half and nine tenths.
pub open spec fn balanced<T: Copy, A: Arith<T>>(
    ops: A,
    universal: usize,
    n_bands: usize,
    c: bool,
) -> bool {
    exists|share: T|
        #[trigger] fits(ops, universal_percent(universal, n_bands), share) && (if c {
            exceeds_ratio(ops, share, 50, 1, true) && falls_short(ops, share, 90, true)
        } else {
            exceeds_ratio(ops, share, 50, 1, false) || falls_short(ops, share, 90, false)
        })
}

/// Whether `x` is less than a number came out as `c`.
pub open spec fn falls_short<T: Copy, A: Arith<T>>(ops: A, x: T, num: u64, c: bool) -> bool {
    exists|limit: T| #[trigger]
        test_is(ops, Test::Exceeds, limit, x, c) && fits(ops, Expr::Ratio(num, 1), limit)
}

fn balanced_on<T: Copy, A: Arith<T>>(ops: &A, universal: usize, n_bands: usize) -> (c: bool)
    ensures
        balanced(*ops, universal, n_bands, c),
{
    let share: Traced<T> = Traced::count(ops, universal).over(
        ops,
        Traced::count(ops, n_bands),
    ).times(ops, Traced::ratio(ops, 100, 1));
    assert(fits(*ops, universal_percent(universal, n_bands), share.v));
    let above: bool = over_ratio(ops, share.v, 50, 1);
    if !above {
        return false;
    }
    let limit: Traced<T> = Traced::ratio(ops, 90, 1);
    let below: bool = holds(ops, Test::Exceeds, limit.v, share.v);
    assert(falls_short(*ops, share.v, 90, below));
    below
}

/// One where something holds.
pub open spec fn tally(c: bool) -> int {
    if c {
        1
    } else {
        0
    }
}

/// How many of the four diagnostics are positive: the ratio, the depth of the peak, the
/// balance of the bands and the clustering.
pub fn positive_count<T: Copy, A: Arith<T>>(
    ops: &A,
    ratio: T,
    peak_layer: usize,
    n_layers: usize,
    universal: usize,
    n_bands: usize,
    clustering: T,
) -> (count: usize)
    ensures
        exists|a: bool, b: bool, c: bool|
            #![trigger
                exceeds_ratio(*ops, ratio, 3, 2, a),
                balanced(*ops, universal, n_bands, b),
                exceeds_ratio(*ops, clustering, 15, 100, c)
            ]
            exceeds_ratio(*ops, ratio, 3, 2, a) && balanced(*ops, universal, n_bands, b)
                && exceeds_ratio(*ops, clustering, 15, 100, c) && count == tally(a) + tally(
                peak_layer > n_layers / 2,
            ) + tally(b) + tally(c),
{
    let a: bool = over_ratio(ops, ratio, 3, 2);
    let b: bool = balanced_on(ops, universal, n_bands);
    let c: bool = over_ratio(ops, clustering, 15, 100);
    let mut count: usize = 0;
    if a {
        count += 1;
    }
    if peak_layer > n_layers / 2 {
        count += 1;
    }
    if b {
        count += 1;
    }
    if c {
        count += 1;
    }
    count
}

/// The layer of a curve's peak: the last of the highest, the first layer without layers.
pub fn peak_layer<T: Copy, A: Arith<T>>(ops: &A, curve: &Vec<T>) -> (at: usize)
    ensures
        curve@.len() == 0 ==> at == 0,
        curve@.len() > 0 ==> at < curve@.len() && last_top(
            *ops,
            curve@,
            curve@.len() as int,
            at as int,
        ),
{
    if curve.len() == 0 {
        0
    } else {
        argmax(ops, curve)
    }
}

} // verus!
