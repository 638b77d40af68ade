//! Diagnostics of what lies between the bands: differences of phases, coupling of magnitudes
//! and the energy that neighbours exchange.

use vstd::prelude::*;
#[allow(unused_imports)]
use vstd::arithmetic::power2::{
    lemma2_to64, lemma_pow2_strictly_increases, lemma_pow2_unfold, pow2,
};
use crate::arith::{Arith, Test, Traced, TracedVec, build, holds, pick_on, total};
#[allow(unused_imports)]
use crate::arith::{
    Expr, Unary, entry, fits, fits_all, larger, minus, one, over, pick, plus, test_is, times,
    total_of, un, val, vals, zero,
};
use crate::attention::{build_rows, column};
#[allow(unused_imports)]
use crate::attention::{column_of, formulas, row_entry, rows_ok};
use crate::coherence::{argmax, mags_on, phases_on};
#[allow(unused_imports)]
use crate::coherence::{last_top, mags_of, phases_of};
use crate::kerr::{around_on, energy_on, waves_on, State};
#[allow(unused_imports)]
use crate::kerr::{around_of, energy_of, waves_of};
use crate::layers::{mean_on, traced};
#[allow(unused_imports)]
use crate::layers::mean_of;
use crate::statistics::{centred_on, loose_correlation_on, over_ratio, similarity_on};
#[allow(unused_imports)]
use crate::statistics::{
    centred_of, exceeds_ratio, faint, loose_correlation_of, similarity_of,
};

verus! {

/// States of at least `n` bands.
pub open spec fn states_cover<T>(states: Seq<Vec<T>>, n: int) -> bool {
    forall|p: int| 0 <= p < states.len() ==> 2 * n <= (#[trigger] states[p])@.len()
}

/// A difference of two phases, brought back to between minus pi and pi by a full turn.
pub open spec fn wrapped_of<T>(d: Expr<T>) -> Expr<T> {
    let turn = times(Expr::Ratio(2, 1), Expr::Pi);
    let down = pick(Test::Exceeds, d, Expr::Pi, minus(d, turn), d);
    pick(Test::Exceeds, un(Unary::Negated, Expr::Pi), down, plus(down, turn), down)
}

/// A difference of two phases, brought back, traced.
pub fn wrapped_on<T: Copy, A: Arith<T>>(ops: &A, d: Traced<T>) -> (out: Traced<T>)
    requires
        d.ok(*ops),
    ensures
        out.ok(*ops),
        out.e@ == wrapped_of(d.e@),
{
    let half: Traced<T> = Traced::pi(ops);
    let turn: Traced<T> = Traced::ratio(ops, 2, 1).times(ops, half);
    let down: Traced<T> = pick_on(ops, Test::Exceeds, d, half, d.minus(ops, turn), d);
    pick_on(ops, Test::Exceeds, half.negated(ops), down, down.plus(ops, turn), down)
}

/// The length of the mean of the unit vectors at given angles: zero without angles.
pub open spec fn resultant_of<T>(angles: Seq<Expr<T>>) -> Expr<T> {
    if angles.len() == 0 {
        zero()
    } else {
        let n = Expr::Count(angles.len() as usize);
        let c = over(total_of(turned(Unary::Cos, angles)), n);
        let s = over(total_of(turned(Unary::Sin, angles)), n);
        un(Unary::Root, plus(Expr::Pow(Box::new(c), 2), Expr::Pow(Box::new(s), 2)))
    }
}

/// Cosines or sines of angles.
pub open spec fn turned<T>(op: Unary, angles: Seq<Expr<T>>) -> Seq<Expr<T>> {
    Seq::new(angles.len(), |i: int| un(op, angles[i]))
}

/// The cosines of angles, traced.
pub fn cosines_on<T: Copy, A: Arith<T>>(ops: &A, angles: &TracedVec<T>) -> (out: TracedVec<T>)
    requires
        angles.ok(*ops),
    ensures
        out.ok(*ops),
        out.e@ == turned(Unary::Cos, angles.e@),
{
    let n: usize = angles.len();
    let f = |i: usize| -> (r: Traced<T>)
        requires
            i < n,
        ensures
            r.ok(*ops),
            r.e@ == entry(turned(Unary::Cos, angles.e@), i),
    {
        angles.get(ops, i).cos(ops)
    };
    build(ops, n, Ghost(turned(Unary::Cos, angles.e@)), f)
}

/// The sines of angles, traced.
pub fn sines_on<T: Copy, A: Arith<T>>(ops: &A, angles: &TracedVec<T>) -> (out: TracedVec<T>)
    requires
        angles.ok(*ops),
    ensures
        out.ok(*ops),
        out.e@ == turned(Unary::Sin, angles.e@),
{
    let n: usize = angles.len();
    let f = |i: usize| -> (r: Traced<T>)
        requires
            i < n,
        ensures
            r.ok(*ops),
            r.e@ == entry(turned(Unary::Sin, angles.e@), i),
    {
        angles.get(ops, i).sin(ops)
    };
    build(ops, n, Ghost(turned(Unary::Sin, angles.e@)), f)
}

/// The length of the mean of the unit vectors at given angles, traced.
pub fn resultant_on<T: Copy, A: Arith<T>>(ops: &A, angles: &TracedVec<T>) -> (out: Traced<T>)
    requires
        angles.ok(*ops),
    ensures
        out.ok(*ops),
        out.e@ == resultant_of(angles.e@),
{
    let n: usize = angles.len();
    if n == 0 {
        return Traced::ratio(ops, 0, 1);
    }
    let count: Traced<T> = Traced::count(ops, n);
    let c: Traced<T> = total(ops, &cosines_on(ops, angles)).over(ops, count);
    let s: Traced<T> = total(ops, &sines_on(ops, angles)).over(ops, count);
    c.power(ops, 2).plus(ops, s.power(ops, 2)).root(ops)
}

/// The differences of the phases of adjacent bands.
pub open spec fn steps_of<T>(x: Seq<Expr<T>>, n: int) -> Seq<Expr<T>> {
    Seq::new(
        (n - 1) as nat,
        |k: int| wrapped_of(minus(phases_of(x, n)[k + 1], phases_of(x, n)[k])),
    )
}

/// The differences of the phases of adjacent bands, traced.
fn steps_on<T: Copy, A: Arith<T>>(ops: &A, x: &TracedVec<T>, n: usize) -> (out: TracedVec<T>)
    requires
        x.ok(*ops),
        1 <= n,
        2 * n <= x.v@.len(),
    ensures
        out.ok(*ops),
        out.v@.len() == n - 1,
        out.e@ == steps_of(x.e@, n as int),
{
    let phases: TracedVec<T> = phases_on(ops, x, n);
    let m: usize = n - 1;
    let f = |k: usize| -> (r: Traced<T>)
        requires
            k < m,
        ensures
            r.ok(*ops),
            r.e@ == entry(steps_of(x.e@, n as int), k),
    {
        wrapped_on(ops, phases.get(ops, k + 1).minus(ops, phases.get(ops, k)))
    };
    build(ops, m, Ghost(steps_of(x.e@, n as int)), f)
}

/// What every position has of a vector of its own.
pub open spec fn step_rows<T>(states: Seq<Vec<T>>, n: int) -> Seq<Seq<Expr<T>>> {
    Seq::new(states.len(), |p: int| steps_of(vals(states[p]@), n))
}

fn step_rows_on<T: Copy, A: Arith<T>>(ops: &A, states: &Vec<Vec<T>>, n: usize) -> (out: Vec<
    TracedVec<T>,
>)
    requires
        1 <= n,
        states_cover(states@, n as int),
    ensures
        out@.len() == states@.len(),
        rows_ok(*ops, out@, n - 1),
        formulas(out@) == step_rows(states@, n as int),
{
    let t: usize = states.len();
    let f = |p: usize| -> (r: TracedVec<T>)
        requires
            p < t,
        ensures
            r.ok(*ops),
            r.e@ == row_entry(step_rows(states@, n as int), p),
    {
        assert(2 * n <= states@[p as int]@.len());
        steps_on(ops, &traced(ops, &states[p]), n)
    };
    let out: Vec<TracedVec<T>> = build_rows(ops, t, Ghost(step_rows(states@, n as int)), f);
    assert forall|i: int| 0 <= i < out@.len() implies (#[trigger] out@[i]).ok(*ops)
        && out@[i].v@.len() == n - 1 by {
        assert(formulas(out@)[i] == out@[i].e@);
    }
    out
}

/// The magnitudes at every position.
pub open spec fn mag_rows<T>(states: Seq<Vec<T>>, n: int) -> Seq<Seq<Expr<T>>> {
    Seq::new(states.len(), |p: int| mags_of(vals(states[p]@), n))
}

/// The magnitudes at every position, traced.
pub fn mag_rows_on<T: Copy, A: Arith<T>>(ops: &A, states: &Vec<Vec<T>>, n: usize) -> (out: Vec<
    TracedVec<T>,
>)
    requires
        states_cover(states@, n as int),
    ensures
        out@.len() == states@.len(),
        rows_ok(*ops, out@, n as int),
        formulas(out@) == mag_rows(states@, n as int),
{
    let t: usize = states.len();
    let f = |p: usize| -> (r: TracedVec<T>)
        requires
            p < t,
        ensures
            r.ok(*ops),
            r.e@ == row_entry(mag_rows(states@, n as int), p),
    {
        assert(2 * n <= states@[p as int]@.len());
        mags_on(ops, &traced(ops, &states[p]), n)
    };
    let out: Vec<TracedVec<T>> = build_rows(ops, t, Ghost(mag_rows(states@, n as int)), f);
    assert forall|i: int| 0 <= i < out@.len() implies (#[trigger] out@[i]).ok(*ops)
        && out@[i].v@.len() == n by {
        assert(formulas(out@)[i] == out@[i].e@);
    }
    out
}

/// The phases at every position.
pub open spec fn phase_rows<T>(states: Seq<Vec<T>>, n: int) -> Seq<Seq<Expr<T>>> {
    Seq::new(states.len(), |p: int| phases_of(vals(states[p]@), n))
}

/// The phases at every position, traced.
pub fn phase_rows_on<T: Copy, A: Arith<T>>(ops: &A, states: &Vec<Vec<T>>, n: usize) -> (out: Vec<
    TracedVec<T>,
>)
    requires
        states_cover(states@, n as int),
    ensures
        out@.len() == states@.len(),
        rows_ok(*ops, out@, n as int),
        formulas(out@) == phase_rows(states@, n as int),
{
    let t: usize = states.len();
    let f = |p: usize| -> (r: TracedVec<T>)
        requires
            p < t,
        ensures
            r.ok(*ops),
            r.e@ == row_entry(phase_rows(states@, n as int), p),
    {
        assert(2 * n <= states@[p as int]@.len());
        phases_on(ops, &traced(ops, &states[p]), n)
    };
    let out: Vec<TracedVec<T>> = build_rows(ops, t, Ghost(phase_rows(states@, n as int)), f);
    assert forall|i: int| 0 <= i < out@.len() implies (#[trigger] out@[i]).ok(*ops)
        && out@[i].v@.len() == n by {
        assert(formulas(out@)[i] == out@[i].e@);
    }
    out
}

/// A column of rows, traced.
fn whole_column<T: Copy, A: Arith<T>>(
    ops: &A,
    rows: &Vec<TracedVec<T>>,
    at: usize,
    Ghost(width): Ghost<int>,
) -> (out: TracedVec<T>)
    requires
        rows_ok(*ops, rows@, width),
        at < width,
    ensures
        out.ok(*ops),
        out.v@.len() == rows@.len(),
        out.e@ == column_of(formulas(rows@), at as int),
{
    let t: usize = rows.len();
    assert(formulas(rows@).take(t as int) =~= formulas(rows@));
    column(ops, rows, t, at, Ghost(width))
}

/// How closely the differences of adjacent phases keep together over the positions, pair by
/// pair.
pub open spec fn step_resultants<T>(states: Seq<Vec<T>>, n: int) -> Seq<Expr<T>> {
    Seq::new((n - 1) as nat, |k: int| resultant_of(column_of(step_rows(states, n), k)))
}

/// How closely the differences of adjacent phases keep together over the positions: the mean
/// over the pairs.
pub fn differential_phase_clustering<T: Copy, A: Arith<T>>(
    ops: &A,
    states: &Vec<Vec<T>>,
    n_bands: usize,
) -> (out: T)
    requires
        1 <= n_bands,
        states_cover(states@, n_bands as int),
    ensures
        fits(
            *ops,
            over(
                total_of(step_resultants(states@, n_bands as int)),
                Expr::Count((n_bands - 1) as usize),
            ),
            out,
        ),
{
    let rows: Vec<TracedVec<T>> = step_rows_on(ops, states, n_bands);
    let m: usize = n_bands - 1;
    let f = |k: usize| -> (r: Traced<T>)
        requires
            k < m,
        ensures
            r.ok(*ops),
            r.e@ == entry(step_resultants(states@, n_bands as int), k),
    {
        resultant_on(ops, &whole_column(ops, &rows, k, Ghost(n_bands - 1)))
    };
    let each: TracedVec<T> = build(
        ops,
        m,
        Ghost(step_resultants(states@, n_bands as int)),
        f,
    );
    total(ops, &each).over(ops, Traced::count(ops, m)).v
}

/// The correlations of the magnitudes of bands at distance `d`, without sign.
pub open spec fn couplings_at<T>(rows: Seq<Seq<Expr<T>>>, n: int, d: int) -> Seq<Expr<T>> {
    Seq::new(
        if n > d {
            (n - d) as nat
        } else {
            0
        },
        |k: int| un(Unary::Abs, loose_correlation_of(column_of(rows, k), column_of(rows, k + d))),
    )
}

/// The mean correlation at distance `d`, zero where no bands are that far apart.
pub open spec fn coupling_at<T>(rows: Seq<Seq<Expr<T>>>, n: int, d: int) -> Expr<T> {
    if n > d {
        over(total_of(couplings_at(rows, n, d)), Expr::Count((n - d) as usize))
    } else {
        zero()
    }
}

fn couplings_on<T: Copy, A: Arith<T>>(
    ops: &A,
    rows: &Vec<TracedVec<T>>,
    n: usize,
    d: usize,
) -> (out: TracedVec<T>)
    requires
        rows_ok(*ops, rows@, n as int),
    ensures
        out.ok(*ops),
        out.e@ == couplings_at(formulas(rows@), n as int, d as int),
{
    let count: usize = if n > d {
        n - d
    } else {
        0
    };
    let f = |k: usize| -> (r: Traced<T>)
        requires
            k < count,
        ensures
            r.ok(*ops),
            r.e@ == entry(couplings_at(formulas(rows@), n as int, d as int), k),
    {
        let a: TracedVec<T> = whole_column(ops, rows, k, Ghost(n as int));
        let b: TracedVec<T> = whole_column(ops, rows, k + d, Ghost(n as int));
        loose_correlation_on(ops, &a, &b).abs(ops)
    };
    build(ops, count, Ghost(couplings_at(formulas(rows@), n as int, d as int)), f)
}

fn coupling_on<T: Copy, A: Arith<T>>(
    ops: &A,
    rows: &Vec<TracedVec<T>>,
    n: usize,
    d: usize,
) -> (out: Traced<T>)
    requires
        rows_ok(*ops, rows@, n as int),
    ensures
        out.ok(*ops),
        out.e@ == coupling_at(formulas(rows@), n as int, d as int),
{
    if n > d {
        let each: TracedVec<T> = couplings_on(ops, rows, n, d);
        total(ops, &each).over(ops, Traced::count(ops, n - d))
    } else {
        Traced::ratio(ops, 0, 1)
    }
}

/// The first entry of the first `n` that none before it reaches, starting from `start`: its
/// place, if any entry exceeds the start, and its value.
pub open spec fn first_peak<T: Copy, A: Arith<T>>(
    ops: A,
    start: T,
    xs: Seq<T>,
    n: int,
    at: Option<int>,
    v: T,
) -> bool
    decreases n,
{
    if n <= 0 {
        at is None && v == start
    } else {
        exists|held: (Option<int>, T), over: bool|
            first_peak(ops, start, xs, n - 1, held.0, held.1) && #[trigger] test_is(
                ops,
                Test::Exceeds,
                xs[n - 1],
                held.1,
                over,
            ) && (if over {
                at == Some(n - 1) && v == xs[n - 1]
            } else {
                at == held.0 && v == held.1
            })
    }
}

/// How the magnitudes of bands go together.
pub struct MagnitudeCoupling<T> {
    /// Correlation at the distances one to five.
    pub coupling_decay: Vec<T>,
    /// Correlation at distance ten.
    pub distant_corr: T,
    /// The adjacent pair that correlates most, and how much.
    pub max_pair: (usize, usize, T),
}

/// The pair that correlates most, among adjacent bands: the first two where none does.
pub open spec fn best_pair<T: Copy, A: Arith<T>>(
    ops: A,
    xs: Seq<T>,
    pair: (usize, usize, T),
) -> bool {
    exists|start: T, at: Option<int>|
        fits(ops, zero(), start) && #[trigger] first_peak(
            ops,
            start,
            xs,
            xs.len() as int,
            at,
            pair.2,
        ) && (match at {
            Some(k) => pair.0 == k && pair.1 == k + 1,
            None => pair.0 == 0 && pair.1 == 1,
        })
}

fn best_pair_on<T: Copy, A: Arith<T>>(ops: &A, xs: &Vec<T>) -> (pair: (usize, usize, T))
    requires
        xs@.len() < usize::MAX,
    ensures
        best_pair(*ops, xs@, pair),
{
    let n: usize = xs.len();
    let start: Traced<T> = Traced::ratio(ops, 0, 1);
    let mut best: (usize, usize, T) = (0, 1, start.v);
    let ghost mut at: Option<int> = None;
    let mut k: usize = 0;
    while k < n
        invariant
            n == xs@.len(),
            n < usize::MAX,
            start.ok(*ops),
            k <= n,
            first_peak(*ops, start.v, xs@, k as int, at, best.2),
            match at {
                Some(i) => best.0 == i && best.1 == i + 1,
                None => best.0 == 0 && best.1 == 1,
            },
        decreases n - k,
    {
        let ghost held = (at, best.2);
        let over: bool = holds(ops, Test::Exceeds, xs[k], best.2);
        if over {
            best = (k, k + 1, xs[k]);
            proof {
                at = Some(k as int);
            }
        }
        k += 1;
        assert(test_is(*ops, Test::Exceeds, xs@[k - 1], held.1, over));
    }
    assert(fits(*ops, zero(), start.v));
    best
}

/// How the magnitudes of bands go together over the positions.
pub fn magnitude_coupling<T: Copy, A: Arith<T>>(ops: &A, states: &Vec<Vec<T>>, n_bands: usize) -> (out:
    MagnitudeCoupling<T>)
    requires
        states_cover(states@, n_bands as int),
    ensures
        fits_all(
            *ops,
            Seq::new(5, |i: int| coupling_at(mag_rows(states@, n_bands as int), n_bands as int, i + 1)),
            out.coupling_decay@,
        ),
        fits(
            *ops,
            coupling_at(mag_rows(states@, n_bands as int), n_bands as int, 10),
            out.distant_corr,
        ),
        exists|xs: Seq<T>|
            fits_all(
                *ops,
                couplings_at(mag_rows(states@, n_bands as int), n_bands as int, 1),
                xs,
            ) && #[trigger] best_pair(*ops, xs, out.max_pair),
{
    let rows: Vec<TracedVec<T>> = mag_rows_on(ops, states, n_bands);
    let f = |i: usize| -> (r: Traced<T>)
        requires
            i < 5,
        ensures
            r.ok(*ops),
            r.e@ == entry(
                Seq::new(5, |i: int| coupling_at(mag_rows(states@, n_bands as int), n_bands as int, i + 1)),
                i,
            ),
    {
        coupling_on(ops, &rows, n_bands, i + 1)
    };
    let decay: TracedVec<T> = build(
        ops,
        5,
        Ghost(Seq::new(5, |i: int| coupling_at(mag_rows(states@, n_bands as int), n_bands as int, i + 1))),
        f,
    );
    let distant: Traced<T> = coupling_on(ops, &rows, n_bands, 10);
    let near: TracedVec<T> = couplings_on(ops, &rows, n_bands, 1);
    let max_pair: (usize, usize, T) = best_pair_on(ops, &near.v);
    let out = MagnitudeCoupling { coupling_decay: decay.v, distant_corr: distant.v, max_pair };
    assert(best_pair(*ops, near.v@, out.max_pair));
    out
}

/// The magnitude of every band, averaged over the positions.
pub open spec fn profile_of<T>(states: Seq<Vec<T>>, n: int) -> Seq<Expr<T>> {
    Seq::new(
        n as nat,
        |k: int|
            over(
                total_of(column_of(mag_rows(states, n), k)),
                Expr::Count(states.len() as usize),
            ),
    )
}

/// Length of the transform of `n` bands: the least power of two that holds them.
pub open spec fn is_fft_len(n: int, len: int) -> bool {
    &&& exists|e: nat| len == #[trigger] pow2(e)
    &&& n <= len
    &&& len == 1 || len < 2 * n
}

/// Some power of two that holds `n` bands is a machine number.
pub open spec fn fft_len_fits(n: int) -> bool {
    exists|e: nat| n <= #[trigger] pow2(e) <= usize::MAX
}

/// Length of the transform of `n` bands.
pub fn fft_len(n: usize) -> (len: usize)
    requires
        fft_len_fits(n as int),
    ensures
        is_fft_len(n as int, len as int),
{
    let mut len: usize = 1;
    let ghost mut e: nat = 0;
    let ghost top = choose|t: nat| n <= #[trigger] pow2(t) <= usize::MAX;
    proof {
        lemma2_to64();
        assert(len == pow2(e));
    }
    while len < n
        invariant
            n <= pow2(top) <= usize::MAX,
            len == pow2(e),
            1 <= len,
            len == 1 || len < 2 * n,
        decreases 2 * n - len,
    {
        proof {
            if top <= e {
                lemma_pow2_no_less(top, e);
            }
            lemma_pow2_no_less(e + 1, top);
            lemma_pow2_unfold(e + 1);
            e = e + 1;
        }
        len = len * 2;
    }
    len
}

/// A higher power of two is no smaller.
proof fn lemma_pow2_no_less(a: nat, b: nat)
    requires
        a <= b,
    ensures
        pow2(a) <= pow2(b),
{
    if a < b {
        lemma_pow2_strictly_increases(a, b);
    }
}

/// No power of two is the largest machine number.
proof fn lemma_fft_len_small(n: int, len: usize)
    requires
        is_fft_len(n, len as int),
    ensures
        len < usize::MAX,
{
    let e = choose|e: nat| len == #[trigger] pow2(e);
    lemma2_to64();
    if e > 0 {
        lemma_pow2_unfold(e);
        assert(len % 2 == 0);
    }
    assert(usize::MAX == 0xffff_ffff || usize::MAX == 0xffff_ffff_ffff_ffff);
}

/// What the transform is applied to: the averaged magnitudes less their mean, and zeros up to
/// the transform's length.
pub open spec fn spectrum_input<T>(states: Seq<Vec<T>>, n: int, len: int) -> Seq<Expr<T>> {
    Seq::new(
        len as nat,
        |i: int|
            if i < n {
                centred_of(profile_of(states, n))[i]
            } else {
                zero()
            },
    )
}

/// What the transform is applied to.
pub fn intermod_input<T: Copy, A: Arith<T>>(ops: &A, states: &Vec<Vec<T>>, n_bands: usize) -> (out:
    Vec<T>)
    requires
        states_cover(states@, n_bands as int),
        fft_len_fits(n_bands as int),
    ensures
        is_fft_len(n_bands as int, out@.len() as int),
        fits_all(
            *ops,
            spectrum_input(states@, n_bands as int, out@.len() as int),
            out@,
        ),
{
    let rows: Vec<TracedVec<T>> = mag_rows_on(ops, states, n_bands);
    let t: usize = states.len();
    let count: Traced<T> = Traced::count(ops, t);
    let f = |k: usize| -> (r: Traced<T>)
        requires
            k < n_bands,
        ensures
            r.ok(*ops),
            r.e@ == entry(profile_of(states@, n_bands as int), k),
    {
        total(ops, &whole_column(ops, &rows, k, Ghost(n_bands as int))).over(ops, count)
    };
    let profile: TracedVec<T> = build(
        ops,
        n_bands,
        Ghost(profile_of(states@, n_bands as int)),
        f,
    );
    let centred: TracedVec<T> = centred_on(ops, &profile);
    let len: usize = fft_len(n_bands);
    let g = |i: usize| -> (r: Traced<T>)
        requires
            i < len,
        ensures
            r.ok(*ops),
            r.e@ == entry(spectrum_input(states@, n_bands as int, len as int), i),
    {
        if i < n_bands {
            centred.get(ops, i)
        } else {
            Traced::ratio(ops, 0, 1)
        }
    };
    let out: TracedVec<T> = build(
        ops,
        len,
        Ghost(spectrum_input(states@, n_bands as int, len as int)),
        g,
    );
    out.v
}

/// Power of the lower half of a spectrum, without its constant part.
pub open spec fn powers_of<T>(re: Seq<T>, im: Seq<T>) -> Seq<Expr<T>> {
    let half = re.len() as int / 2;
    Seq::new(
        if half > 1 {
            (half - 1) as nat
        } else {
            0
        },
        |i: int| energy_of(val(re[i + 1]), val(im[i + 1])),
    )
}

/// Shares of the whole power, which counts as no less than a ten-billionth.
pub open spec fn shares_of<T>(powers: Seq<Expr<T>>) -> Seq<Expr<T>> {
    Seq::new(powers.len(), |i: int| over(powers[i], larger(total_of(powers), faint())))
}

/// What a share adds to the entropy, unless it is faint. The flag tells whether it does.
pub open spec fn surprise_of<T>(p: Expr<T>) -> Expr<T> {
    times(p, un(Unary::Ln, p))
}

/// The surprises of the shares that are not faint, among the first `n`.
pub open spec fn surprises<T: Copy, A: Arith<T>>(
    ops: A,
    shares: Seq<T>,
    n: int,
    out: Seq<Expr<T>>,
) -> bool
    decreases n,
{
    if n <= 0 {
        out.len() == 0
    } else {
        exists|limit: T, counts: bool| #[trigger]
            test_is(ops, Test::Exceeds, shares[n - 1], limit, counts) && fits(
                ops,
                faint(),
                limit,
            ) && (if counts {
                &&& out.len() > 0
                &&& out.last() == surprise_of(val(shares[n - 1]))
                &&& surprises(ops, shares, n - 1, out.drop_last())
            } else {
                surprises(ops, shares, n - 1, out)
            })
    }
}

/// `a` stands before `b` in falling order: the one that came first unless the other exceeds
/// it.
pub open spec fn may_precede<T: Copy, A: Arith<T>>(ops: A, a: (usize, T), b: (usize, T)) -> bool {
    if a.0 < b.0 {
        test_is(ops, Test::Exceeds, b.1, a.1, false)
    } else {
        test_is(ops, Test::Exceeds, a.1, b.1, true)
    }
}

/// A falling order of entries with their places: an entry exceeds every next one that came before
/// it, so equal ones stand in the order in which they came.
pub open spec fn falling<T: Copy, A: Arith<T>>(ops: A, list: Seq<(usize, T)>) -> bool {
    forall|i: int|
        0 <= i < list.len() - 1 ==> may_precede(ops, #[trigger] list[i], list[i + 1])
}

/// Entries with their places, counted from `first`.
pub open spec fn placed<T>(xs: Seq<T>, first: int) -> Seq<(usize, T)> {
    Seq::new(xs.len(), |i: int| ((i + first) as usize, xs[i]))
}

/// Puts entries with their places, counted from `first`, in falling order.
pub fn sorted_peaks<T: Copy, A: Arith<T>>(ops: &A, xs: &Vec<T>, first: usize) -> (out: Vec<(usize, T)>)
    requires
        xs@.len() + first <= usize::MAX,
    ensures
        out@.to_multiset() == placed(xs@, first as int).to_multiset(),
        falling(*ops, out@),
{
    let n: usize = xs.len();
    let mut out: Vec<(usize, T)> = Vec::new();
    let mut i: usize = 0;
    assert(placed(xs@, first as int).take(0) =~= Seq::<(usize, T)>::empty());
    while i < n
        invariant
            n == xs@.len(),
            n + first <= usize::MAX,
            i <= n,
            out@.len() == i,
            out@.to_multiset() == placed(xs@, first as int).take(i as int).to_multiset(),
            falling(*ops, out@),
            forall|k: int| 0 <= k < i ==> (#[trigger] out@[k]).0 < i + first,
        decreases n - i,
    {
        let x: T = xs[i];
        let ghost before = out@;
        let mut at: usize = i;
        while at > 0 && holds(ops, Test::Exceeds, x, out[at - 1].1)
            invariant_except_break
                at <= i,
                n == xs@.len(),
                i < n,
                n + first <= usize::MAX,
                out@ == before,
                out@.len() == i,
                forall|k: int| 0 <= k < i ==> (#[trigger] before[k]).0 < i + first,
                at < i ==> may_precede(*ops, ((i + first) as usize, x), before[at as int]),
            ensures
                at <= i,
                out@ == before,
                at < i ==> may_precede(*ops, ((i + first) as usize, x), before[at as int]),
                at > 0 ==> may_precede(*ops, before[at - 1], ((i + first) as usize, x)),
            decreases at,
        {
            at -= 1;
        }
        out.insert(at, (i + first, x));
        proof {
            let item = ((i + first) as usize, x);
            assert(out@ =~= before.insert(at as int, item));
            assert forall|k: int| 0 <= k < out@.len() implies (#[trigger] out@[k]).0 < i + 1 + first by {
                if k < at {
                    assert(out@[k] == before[k]);
                } else if k > at {
                    assert(out@[k] == before[k - 1]);
                }
            }
            vstd::seq_lib::to_multiset_insert(before, at as int, item);
            assert(placed(xs@, first as int).take(i + 1) =~= placed(xs@, first as int).take(
                i as int,
            ).push(item));
            vstd::seq_lib::to_multiset_build(placed(xs@, first as int).take(i as int), item);
            assert forall|k: int| 0 <= k < out@.len() - 1 implies may_precede(
                *ops,
                #[trigger] out@[k],
                out@[k + 1],
            ) by {
                if k + 1 < at {
                    assert(out@[k] == before[k] && out@[k + 1] == before[k + 1]);
                } else if k > at {
                    assert(out@[k] == before[k - 1] && out@[k + 1] == before[k]);
                }
            }
        }
        i += 1;
    }
    assert(placed(xs@, first as int).take(n as int) =~= placed(xs@, first as int));
    out
}

/// The spectrum of the averaged magnitudes.
pub struct InterModSpectrum<T> {
    /// The strongest periods, with their shares of the power.
    pub spectral_peaks: Vec<(usize, T)>,
    pub spectral_entropy: T,
    pub dominant_period: usize,
}

/// The entropy of shares, over that of equal shares.
pub open spec fn entropy_ratio<T>(terms: Seq<Expr<T>>, n: usize) -> Expr<T> {
    over(
        un(Unary::Negated, total_of(terms)),
        larger(un(Unary::Ln, Expr::Count(n)), faint()),
    )
}

/// A report fits a transformed spectrum: its peaks are the five largest shares of the power, and
/// its entropy is that of all shares, relative to the largest there can be.
pub open spec fn spectrum_fits<T: Copy, A: Arith<T>>(
    ops: A,
    re: Seq<T>,
    im: Seq<T>,
    out: InterModSpectrum<T>,
) -> bool {
    exists|shares: Seq<T>, order: Seq<(usize, T)>, terms: Seq<Expr<T>>|
        {
            &&& fits_all(ops, shares_of(powers_of(re, im)), shares)
            &&& order.to_multiset() == placed(shares, 1).to_multiset()
            &&& #[trigger] falling(ops, order)
            &&& out.spectral_peaks@ == order.take(if order.len() < 5 {
                order.len() as int
            } else {
                5
            })
            &&& out.dominant_period == (if order.len() > 0 {
                order[0].0
            } else {
                1
            })
            &&& #[trigger] surprises(ops, shares, shares.len() as int, terms)
            &&& fits(
                ops,
                entropy_ratio(terms, shares.len() as usize),
                out.spectral_entropy,
            )
        }
}

/// The peaks of a spectrum and its entropy, out of its real and imaginary parts.
pub fn intermod_peaks<T: Copy, A: Arith<T>>(ops: &A, re: &Vec<T>, im: &Vec<T>) -> (out:
    InterModSpectrum<T>)
    requires
        re@.len() == im@.len(),
        re@.len() < usize::MAX,
    ensures
        spectrum_fits(*ops, re@, im@, out),
{
    let half: usize = re.len() / 2;
    let m: usize = if half > 1 {
        half - 1
    } else {
        0
    };
    let f = |i: usize| -> (r: Traced<T>)
        requires
            i < m,
        ensures
            r.ok(*ops),
            r.e@ == entry(powers_of(re@, im@), i),
    {
        energy_on(ops, Traced::of(ops, re[i + 1]), Traced::of(ops, im[i + 1]))
    };
    let powers: TracedVec<T> = build(ops, m, Ghost(powers_of(re@, im@)), f);
    let limit: Traced<T> = Traced::ratio(ops, 1, 10000000000);
    let whole: Traced<T> = total(ops, &powers).larger(ops, limit);
    let g = |i: usize| -> (r: Traced<T>)
        requires
            i < m,
        ensures
            r.ok(*ops),
            r.e@ == entry(shares_of(powers.e@), i),
    {
        powers.get(ops, i).over(ops, whole)
    };
    let shares: TracedVec<T> = build(ops, m, Ghost(shares_of(powers.e@)), g);
    let order: Vec<(usize, T)> = sorted_peaks(ops, &shares.v, 1);
    let ghost all = order@;
    let mut terms: TracedVec<T> = TracedVec::new(ops);
    let mut i: usize = 0;
    while i < m
        invariant
            shares.ok(*ops),
            m == shares.v@.len(),
            limit.ok(*ops),
            limit.e@ == faint::<T>(),
            i <= m,
            terms.ok(*ops),
            surprises(*ops, shares.v@, i as int, terms.e@),
        decreases m - i,
    {
        let p: T = shares.v[i];
        let counts: bool = holds(ops, Test::Exceeds, p, limit.v);
        let ghost before = terms.e@;
        if counts {
            let x: Traced<T> = Traced::of(ops, p);
            terms.push(ops, x.times(ops, x.ln(ops)));
            assert(terms.e@.drop_last() =~= before);
        }
        i += 1;
        assert(test_is(*ops, Test::Exceeds, shares.v@[i - 1], limit.v, counts));
    }
    let most: Traced<T> = Traced::count(ops, m).ln(ops).larger(ops, limit);
    let entropy: Traced<T> = total(ops, &terms).negated(ops).over(ops, most);
    let dominant_period: usize = if order.len() > 0 {
        order[0].0
    } else {
        1
    };
    let kept: usize = if order.len() < 5 {
        order.len()
    } else {
        5
    };
    let mut spectral_peaks: Vec<(usize, T)> = Vec::new();
    let mut k: usize = 0;
    while k < kept
        invariant
            kept <= order@.len(),
            k <= kept,
            spectral_peaks@ == order@.take(k as int),
        decreases kept - k,
    {
        spectral_peaks.push(order[k]);
        k += 1;
        assert(spectral_peaks@ =~= order@.take(k as int));
    }
    let out = InterModSpectrum {
        spectral_peaks,
        spectral_entropy: entropy.v,
        dominant_period,
    };
    assert(falling(*ops, all));
    assert(surprises(*ops, shares.v@, shares.v@.len() as int, terms.e@));
    out
}

/// How the magnitudes of neighbouring bands vary together: the spectrum of the averaged
/// magnitudes, from the transform that is handed in.
pub fn intermod_spectrum<T: Copy, A: Arith<T>, F: Fn(&Vec<T>) -> (Vec<T>, Vec<T>)>(
    ops: &A,
    states: &Vec<Vec<T>>,
    n_bands: usize,
    transform: F,
) -> (out: InterModSpectrum<T>)
    requires
        states_cover(states@, n_bands as int),
        fft_len_fits(n_bands as int),
        forall|x: &Vec<T>|
            is_fft_len(n_bands as int, x@.len() as int) ==> #[trigger] call_requires(
                transform,
                (x,),
            ),
        forall|x: &Vec<T>, y: (Vec<T>, Vec<T>)| #[trigger]
            call_ensures(transform, (x,), y) ==> y.0@.len() == x@.len() && y.1@.len() == x@.len(),
    ensures
        exists|x: &Vec<T>, y: (Vec<T>, Vec<T>)|
            {
                &&& is_fft_len(n_bands as int, x@.len() as int)
                &&& fits_all(
                    *ops,
                    spectrum_input(states@, n_bands as int, x@.len() as int),
                    x@,
                )
                &&& #[trigger] call_ensures(transform, (x,), y)
                &&& spectrum_fits(*ops, y.0@, y.1@, out)
            },
{
    let x: Vec<T> = intermod_input(ops, states, n_bands);
    let y: (Vec<T>, Vec<T>) = transform(&x);
    let n: usize = x.len();
    proof {
        lemma_fft_len_small(n_bands as int, n);
    }
    let out: InterModSpectrum<T> = intermod_peaks(ops, &y.0, &y.1);
    assert(call_ensures(transform, (&x,), y));
    out
}

/// The mean similarity of pairs of rows, without sign.
pub open spec fn pair_similarities<T>(rows: Seq<Seq<Expr<T>>>, pairs: Seq<(usize, usize)>) -> Seq<
    Expr<T>,
> {
    Seq::new(
        pairs.len(),
        |i: int|
            un(Unary::Abs, similarity_of(rows[pairs[i].0 as int], rows[pairs[i].1 as int])),
    )
}

/// Pairs of places among `n`.
pub open spec fn pairs_in(pairs: Seq<(usize, usize)>, n: int) -> bool {
    forall|i: int| 0 <= i < pairs.len() ==> (#[trigger] pairs[i]).0 < n && pairs[i].1 < n
}

/// How much more alike related rows are than others: one where there is nothing to compare,
/// and a hundred times the mean of the related ones where the others are hardly alike.
pub open spec fn discrimination_of<T>(
    rows: Seq<Seq<Expr<T>>>,
    related: Seq<(usize, usize)>,
    random: Seq<(usize, usize)>,
) -> Expr<T> {
    if related.len() == 0 || random.len() == 0 {
        one()
    } else {
        let a = over(
            total_of(pair_similarities(rows, related)),
            Expr::Count(related.len() as usize),
        );
        let b = over(
            total_of(pair_similarities(rows, random)),
            Expr::Count(random.len() as usize),
        );
        pick(Test::Exceeds, faint(), b, times(a, Expr::Ratio(100, 1)), over(a, b))
    }
}

fn mean_similarity_on<T: Copy, A: Arith<T>>(
    ops: &A,
    rows: &Vec<TracedVec<T>>,
    pairs: &[(usize, usize)],
    Ghost(width): Ghost<int>,
) -> (out: Traced<T>)
    requires
        rows_ok(*ops, rows@, width),
        pairs_in(pairs@, rows@.len() as int),
    ensures
        out.ok(*ops),
        out.e@ == over(
            total_of(pair_similarities(formulas(rows@), pairs@)),
            Expr::Count(pairs@.len() as usize),
        ),
{
    let n: usize = pairs.len();
    let f = |i: usize| -> (r: Traced<T>)
        requires
            i < n,
        ensures
            r.ok(*ops),
            r.e@ == entry(pair_similarities(formulas(rows@), pairs@), i),
    {
        let (a, b): (usize, usize) = pairs[i];
        assert(pairs@[i as int].0 < rows@.len() && pairs@[i as int].1 < rows@.len());
        assert(rows@[a as int].v@.len() == rows@[b as int].v@.len());
        similarity_on(ops, &rows[a], &rows[b]).abs(ops)
    };
    let each: TracedVec<T> = build(
        ops,
        n,
        Ghost(pair_similarities(formulas(rows@), pairs@)),
        f,
    );
    total(ops, &each).over(ops, Traced::count(ops, n))
}

/// How much more alike related rows are than others, traced.
pub fn discrimination_on<T: Copy, A: Arith<T>>(
    ops: &A,
    rows: &Vec<TracedVec<T>>,
    related: &[(usize, usize)],
    random: &[(usize, usize)],
    Ghost(width): Ghost<int>,
) -> (out: Traced<T>)
    requires
        rows_ok(*ops, rows@, width),
        pairs_in(related@, rows@.len() as int),
        pairs_in(random@, rows@.len() as int),
    ensures
        out.ok(*ops),
        out.e@ == discrimination_of(formulas(rows@), related@, random@),
{
    let n: usize = related.len();
    let m: usize = random.len();
    if n == 0 || m == 0 {
        return Traced::ratio(ops, 1, 1);
    }
    let a: Traced<T> = mean_similarity_on(ops, rows, related, Ghost(width));
    let b: Traced<T> = mean_similarity_on(ops, rows, random, Ghost(width));
    pick_on(
        ops,
        Test::Exceeds,
        Traced::ratio(ops, 1, 10000000000),
        b,
        a.times(ops, Traced::ratio(ops, 100, 1)),
        a.over(ops, b),
    )
}

/// How well three readings of a state tell related positions from others.
pub struct CrossBandDiscrimination<T> {
    pub per_band_ratio: T,
    pub diff_phase_ratio: T,
    pub magnitude_ratio: T,
}

/// How well phases, differences of phases and magnitudes tell related positions from others.
pub fn cross_band_discrimination<T: Copy, A: Arith<T>>(
    ops: &A,
    states: &Vec<Vec<T>>,
    related: &[(usize, usize)],
    random: &[(usize, usize)],
    n_bands: usize,
) -> (out: CrossBandDiscrimination<T>)
    requires
        1 <= n_bands,
        states_cover(states@, n_bands as int),
        pairs_in(related@, states@.len() as int),
        pairs_in(random@, states@.len() as int),
    ensures
        fits(
            *ops,
            discrimination_of(phase_rows(states@, n_bands as int), related@, random@),
            out.per_band_ratio,
        ),
        fits(
            *ops,
            discrimination_of(step_rows(states@, n_bands as int), related@, random@),
            out.diff_phase_ratio,
        ),
        fits(
            *ops,
            discrimination_of(mag_rows(states@, n_bands as int), related@, random@),
            out.magnitude_ratio,
        ),
{
    let phases: Vec<TracedVec<T>> = phase_rows_on(ops, states, n_bands);
    let steps: Vec<TracedVec<T>> = step_rows_on(ops, states, n_bands);
    let mags: Vec<TracedVec<T>> = mag_rows_on(ops, states, n_bands);
    CrossBandDiscrimination {
        per_band_ratio: discrimination_on(ops, &phases, related, random, Ghost(n_bands as int)).v,
        diff_phase_ratio: discrimination_on(ops, &steps, related, random, Ghost(n_bands - 1)).v,
        magnitude_ratio: discrimination_on(ops, &mags, related, random, Ghost(n_bands as int)).v,
    }
}

/// The energy of every band, times its coefficient.
pub open spec fn own_energies<T>(x: Seq<Expr<T>>, n: int, alpha: T) -> Seq<Expr<T>> {
    Seq::new(n as nat, |k: int| times(val(alpha), energy_of(x[2 * k], x[2 * k + 1])))
}

/// The energy around every band, times its coefficient.
pub open spec fn cross_energies<T>(x: Seq<Expr<T>>, n: int, beta: T) -> Seq<Expr<T>> {
    Seq::new(n as nat, |k: int| times(around_of(waves_of(x, n), k), val(beta)))
}

/// The mean over the positions of what every band has.
pub open spec fn band_means<T>(rows: Seq<Seq<Expr<T>>>, n: int) -> Seq<Expr<T>> {
    Seq::new(
        n as nat,
        |k: int| over(total_of(column_of(rows, k)), Expr::Count(rows.len() as usize)),
    )
}

/// The mean energy of every band.
pub open spec fn own_means<T>(states: Seq<Vec<T>>, n: int, alpha: T) -> Seq<Expr<T>> {
    band_means(
        Seq::new(states.len(), |p: int| own_energies(vals(states[p]@), n, alpha)),
        n,
    )
}

/// The mean energy around every band.
pub open spec fn cross_means<T>(states: Seq<Vec<T>>, n: int, beta: T) -> Seq<Expr<T>> {
    band_means(
        Seq::new(states.len(), |p: int| cross_energies(vals(states[p]@), n, beta)),
        n,
    )
}

/// A ratio of energies: zero where there is hardly anything to divide by.
pub open spec fn energy_ratio<T>(own: Expr<T>, cross: Expr<T>) -> Expr<T> {
    pick(Test::Exceeds, own, faint(), over(cross, own), zero())
}

/// The ratio of the energies of every band.
pub open spec fn energy_ratios<T>(own: Seq<Expr<T>>, cross: Seq<Expr<T>>) -> Seq<Expr<T>> {
    Seq::new(own.len(), |k: int| energy_ratio(own[k], cross[k]))
}

/// The first of the smallest among the first `n` entries is at `at`.
pub open spec fn first_low<T: Copy, A: Arith<T>>(ops: A, xs: Seq<T>, n: int, at: int) -> bool
    decreases n,
{
    if n <= 1 {
        at == 0
    } else {
        exists|held: int, yields: bool| #[trigger]
            test_is(ops, Test::Exceeds, xs[held], xs[n - 1], yields) && first_low(
                ops,
                xs,
                n - 1,
                held,
            ) && 0 <= held < n - 1 && at == (if yields {
                n - 1
            } else {
                held
            })
    }
}

/// The place of the smallest entry, the first of equals.
pub fn argmin<T: Copy, A: Arith<T>>(ops: &A, xs: &[T]) -> (at: usize)
    requires
        xs@.len() > 0,
    ensures
        at < xs@.len(),
        first_low(*ops, xs@, xs@.len() as int, at as int),
{
    let n: usize = xs.len();
    let mut at: usize = 0;
    let mut i: usize = 1;
    while i < n
        invariant
            n == xs@.len(),
            1 <= i <= n,
            at < i,
            first_low(*ops, xs@, i as int, at as int),
        decreases n - i,
    {
        let yields: bool = ops.exceeds(xs[at], xs[i]);
        let ghost held = at as int;
        if yields {
            at = i;
        }
        i += 1;
        assert(test_is(*ops, Test::Exceeds, xs@[held], xs@[i - 1], yields));
    }
    at
}

/// How much energy the bands take from themselves and from their neighbours.
pub struct CouplingBudget<T> {
    pub self_mod_energy: T,
    pub cross_mod_energy: T,
    pub cross_self_ratio: T,
    pub most_coupled_band: (usize, T),
    pub least_coupled_band: (usize, T),
}

/// The bands that are coupled most and least, by their ratios.
pub open spec fn extremes<T: Copy, A: Arith<T>>(
    ops: A,
    ratios: Seq<T>,
    b: CouplingBudget<T>,
) -> bool {
    let n = ratios.len() as int;
    if n == 0 {
        &&& b.most_coupled_band.0 == 0
        &&& b.least_coupled_band.0 == 0
        &&& fits(ops, zero(), b.most_coupled_band.1)
        &&& fits(ops, zero(), b.least_coupled_band.1)
    } else {
        &&& b.most_coupled_band.0 < n
        &&& b.least_coupled_band.0 < n
        &&& last_top(ops, ratios, n, b.most_coupled_band.0 as int)
        &&& first_low(ops, ratios, n, b.least_coupled_band.0 as int)
        &&& b.most_coupled_band.1 == ratios[b.most_coupled_band.0 as int]
        &&& b.least_coupled_band.1 == ratios[b.least_coupled_band.0 as int]
    }
}

fn energy_rows_on<T: Copy, A: Arith<T>>(
    ops: &A,
    states: &Vec<Vec<T>>,
    n: usize,
    alpha: T,
    beta: T,
) -> (res: (Vec<TracedVec<T>>, Vec<TracedVec<T>>))
    requires
        states_cover(states@, n as int),
        n <= usize::MAX - 2,
    ensures
        res.0@.len() == states@.len(),
        res.1@.len() == states@.len(),
        rows_ok(*ops, res.0@, n as int),
        rows_ok(*ops, res.1@, n as int),
        formulas(res.0@) == Seq::new(
            states@.len(),
            |p: int| own_energies(vals(states@[p]@), n as int, alpha),
        ),
        formulas(res.1@) == Seq::new(
            states@.len(),
            |p: int| cross_energies(vals(states@[p]@), n as int, beta),
        ),
{
    let t: usize = states.len();
    let a: Traced<T> = Traced::of(ops, alpha);
    let b: Traced<T> = Traced::of(ops, beta);
    let ghost want_own = Seq::new(
        states@.len(),
        |p: int| own_energies(vals(states@[p]@), n as int, alpha),
    );
    let ghost want_cross = Seq::new(
        states@.len(),
        |p: int| cross_energies(vals(states@[p]@), n as int, beta),
    );
    let mut own: Vec<TracedVec<T>> = Vec::new();
    let mut cross: Vec<TracedVec<T>> = Vec::new();
    let mut p: usize = 0;
    assert(formulas(own@) =~= want_own.take(0));
    assert(formulas(cross@) =~= want_cross.take(0));
    while p < t
        invariant
            t == states@.len(),
            states_cover(states@, n as int),
            n <= usize::MAX - 2,
            a.ok(*ops),
            a.e@ == val(alpha),
            b.ok(*ops),
            b.e@ == val(beta),
            want_own == Seq::new(
                states@.len(),
                |p: int| own_energies(vals(states@[p]@), n as int, alpha),
            ),
            want_cross == Seq::new(
                states@.len(),
                |p: int| cross_energies(vals(states@[p]@), n as int, beta),
            ),
            p <= t,
            own@.len() == p,
            cross@.len() == p,
            rows_ok(*ops, own@, n as int),
            rows_ok(*ops, cross@, n as int),
            formulas(own@) == want_own.take(p as int),
            formulas(cross@) == want_cross.take(p as int),
        decreases t - p,
    {
        assert(2 * n <= states@[p as int]@.len());
        let x: TracedVec<T> = traced(ops, &states[p]);
        let z: State<T> = waves_on(ops, &x, n);
        let f = |k: usize| -> (r: Traced<T>)
            requires
                k < n,
            ensures
                r.ok(*ops),
                r.e@ == entry(own_energies(x.e@, n as int, alpha), k),
        {
            a.times(ops, energy_on(ops, z.r.get(ops, k), z.s.get(ops, k)))
        };
        let own_row: TracedVec<T> = build(ops, n, Ghost(own_energies(x.e@, n as int, alpha)), f);
        let g = |k: usize| -> (r: Traced<T>)
            requires
                k < n,
            ensures
                r.ok(*ops),
                r.e@ == entry(cross_energies(x.e@, n as int, beta), k),
        {
            around_on(ops, &z, k).times(ops, b)
        };
        let cross_row: TracedVec<T> = build(
            ops,
            n,
            Ghost(cross_energies(x.e@, n as int, beta)),
            g,
        );
        let ghost own0 = formulas(own@);
        let ghost cross0 = formulas(cross@);
        own.push(own_row);
        cross.push(cross_row);
        p += 1;
        proof {
            assert(formulas(own@) =~= own0.push(own_row.e@));
            assert(formulas(cross@) =~= cross0.push(cross_row.e@));
            assert(formulas(own@) =~= want_own.take(p as int));
            assert(formulas(cross@) =~= want_cross.take(p as int));
        }
    }
    assert(want_own.take(t as int) =~= want_own);
    assert(want_cross.take(t as int) =~= want_cross);
    (own, cross)
}

fn band_means_on<T: Copy, A: Arith<T>>(ops: &A, rows: &Vec<TracedVec<T>>, n: usize) -> (out: TracedVec<
    T,
>)
    requires
        rows_ok(*ops, rows@, n as int),
    ensures
        out.ok(*ops),
        out.v@.len() == n,
        out.e@ == band_means(formulas(rows@), n as int),
{
    let t: usize = rows.len();
    let f = |k: usize| -> (r: Traced<T>)
        requires
            k < n,
        ensures
            r.ok(*ops),
            r.e@ == entry(band_means(formulas(rows@), n as int), k),
    {
        total(ops, &whole_column(ops, rows, k, Ghost(n as int))).over(ops, Traced::count(ops, t))
    };
    build(ops, n, Ghost(band_means(formulas(rows@), n as int)), f)
}

/// How much energy the bands take from themselves and from their neighbours, over the
/// positions.
pub fn coupling_budget<T: Copy, A: Arith<T>>(
    ops: &A,
    states: &Vec<Vec<T>>,
    n_bands: usize,
    alpha: T,
    beta: T,
) -> (out: CouplingBudget<T>)
    requires
        states_cover(states@, n_bands as int),
        n_bands <= usize::MAX - 2,
    ensures
        ({
            let own = own_means(states@, n_bands as int, alpha);
            let cross = cross_means(states@, n_bands as int, beta);
            &&& fits(*ops, mean_of(own), out.self_mod_energy)
            &&& fits(*ops, mean_of(cross), out.cross_mod_energy)
            &&& fits(*ops, energy_ratio(mean_of(own), mean_of(cross)), out.cross_self_ratio)
            &&& exists|ratios: Seq<T>|
                fits_all(*ops, energy_ratios(own, cross), ratios) && #[trigger] extremes(
                    *ops,
                    ratios,
                    out,
                )
        }),
{
    let n: usize = n_bands;
    let (own_rows, cross_rows) = energy_rows_on(ops, states, n, alpha, beta);
    let own: TracedVec<T> = band_means_on(ops, &own_rows, n);
    let cross: TracedVec<T> = band_means_on(ops, &cross_rows, n);
    let limit: Traced<T> = Traced::ratio(ops, 1, 10000000000);
    let nought: Traced<T> = Traced::ratio(ops, 0, 1);
    let f = |k: usize| -> (r: Traced<T>)
        requires
            k < n,
        ensures
            r.ok(*ops),
            r.e@ == entry(energy_ratios(own.e@, cross.e@), k),
    {
        let s: Traced<T> = own.get(ops, k);
        let c: Traced<T> = cross.get(ops, k);
        pick_on(ops, Test::Exceeds, s, limit, c.over(ops, s), nought)
    };
    let ratios: TracedVec<T> = build(ops, n, Ghost(energy_ratios(own.e@, cross.e@)), f);
    let s: Traced<T> = mean_on(ops, &own);
    let c: Traced<T> = mean_on(ops, &cross);
    let ratio: Traced<T> = pick_on(ops, Test::Exceeds, s, limit, c.over(ops, s), nought);
    let (most, least): ((usize, T), (usize, T)) = if n == 0 {
        ((0, nought.v), (0, nought.v))
    } else {
        let i: usize = argmax(ops, &ratios.v);
        let j: usize = argmin(ops, &ratios.v);
        ((i, ratios.v[i]), (j, ratios.v[j]))
    };
    let out = CouplingBudget {
        self_mod_energy: s.v,
        cross_mod_energy: c.v,
        cross_self_ratio: ratio.v,
        most_coupled_band: most,
        least_coupled_band: least,
    };
    assert(fits(*ops, zero(), nought.v));
    assert(extremes(*ops, ratios.v@, out));
    out
}

/// How much closer differences of phases keep together than phases: zero where phases
/// hardly do.
pub fn clustering_ratio<T: Copy, A: Arith<T>>(ops: &A, differential: T, per_band: T) -> (out: T)
    ensures
        fits(*ops, energy_ratio(val(per_band), val(differential)), out),
{
    let own: Traced<T> = Traced::of(ops, per_band);
    pick_on(
        ops,
        Test::Exceeds,
        own,
        Traced::ratio(ops, 1, 10000000000),
        Traced::of(ops, differential).over(ops, own),
        Traced::ratio(ops, 0, 1),
    ).v
}

/// Whether the coupling falls off as the ODE couples: half as much again at the first
/// distance as at the third.
pub fn decay_matches<T: Copy, A: Arith<T>>(ops: &A, decay: &Vec<T>) -> (c: bool)
    ensures
        decay@.len() < 3 ==> !c,
        decay@.len() >= 3 ==> exists|limit: T| #[trigger]
            test_is(*ops, Test::Exceeds, decay@[0], limit, c) && fits(
                *ops,
                times(val(decay@[2]), Expr::Ratio(3, 2)),
                limit,
            ),
{
    if decay.len() < 3 {
        return false;
    }
    let limit: Traced<T> = Traced::of(ops, decay[2]).times(ops, Traced::ratio(ops, 3, 2));
    let c: bool = holds(ops, Test::Exceeds, decay[0], limit.v);
    assert(test_is(*ops, Test::Exceeds, decay@[0], limit.v, c));
    c
}

/// What the readings between bands say.
#[derive(Clone, Copy, Debug, PartialEq, Eq, Structural)]
pub enum CrossBandVerdict {
    Detected,
    Emerging,
    Nothing,
}

/// Whether differences of phases tell more than a tenth better than phases came out as `c`.
pub open spec fn edges_ahead<T: Copy, A: Arith<T>>(
    ops: A,
    d: CrossBandDiscrimination<T>,
    c: bool,
) -> bool {
    exists|limit: T| #[trigger]
        test_is(ops, Test::Exceeds, d.diff_phase_ratio, limit, c) && fits(
            ops,
            times(val(d.per_band_ratio), Expr::Ratio(11, 10)),
            limit,
        )
}

/// What the readings between bands say: something where one of them tells related positions
/// a fifth better, a beginning where differences of phases tell a tenth better than phases.
pub fn cross_band_verdict<T: Copy, A: Arith<T>>(ops: &A, d: &CrossBandDiscrimination<T>) -> (v:
    CrossBandVerdict)
    ensures
        match v {
            CrossBandVerdict::Detected => exceeds_ratio(*ops, d.diff_phase_ratio, 12, 10, true)
                || exceeds_ratio(*ops, d.magnitude_ratio, 12, 10, true),
            CrossBandVerdict::Emerging => {
                &&& exceeds_ratio(*ops, d.diff_phase_ratio, 12, 10, false)
                &&& exceeds_ratio(*ops, d.magnitude_ratio, 12, 10, false)
                &&& edges_ahead(*ops, *d, true)
            },
            CrossBandVerdict::Nothing => {
                &&& exceeds_ratio(*ops, d.diff_phase_ratio, 12, 10, false)
                &&& exceeds_ratio(*ops, d.magnitude_ratio, 12, 10, false)
                &&& edges_ahead(*ops, *d, false)
            },
        },
{
    if over_ratio(ops, d.diff_phase_ratio, 12, 10) || over_ratio(ops, d.magnitude_ratio, 12, 10) {
        return CrossBandVerdict::Detected;
    }
    let limit: Traced<T> = Traced::of(ops, d.per_band_ratio).times(ops, Traced::ratio(ops, 11, 10));
    let c: bool = holds(ops, Test::Exceeds, d.diff_phase_ratio, limit.v);
    assert(edges_ahead(*ops, *d, c));
    if c {
        CrossBandVerdict::Emerging
    } else {
        CrossBandVerdict::Nothing
    }
}

/// What the budget of energies says.
#[derive(Clone, Copy, Debug, PartialEq, Eq, Structural)]
pub enum BudgetVerdict {
    Neighbours,
    Balanced,
    Independent,
}

/// What the budget of energies says: neighbours rule above one, both count above a half.
pub fn budget_verdict<T: Copy, A: Arith<T>>(ops: &A, ratio: T) -> (v: BudgetVerdict)
    ensures
        match v {
            BudgetVerdict::Neighbours => exceeds_ratio(*ops, ratio, 1, 1, true),
            BudgetVerdict::Balanced => exceeds_ratio(*ops, ratio, 1, 1, false) && exceeds_ratio(
                *ops,
                ratio,
                1,
                2,
                true,
            ),
            BudgetVerdict::Independent => exceeds_ratio(*ops, ratio, 1, 1, false)
                && exceeds_ratio(*ops, ratio, 1, 2, false),
        },
{
    if over_ratio(ops, ratio, 1, 1) {
        BudgetVerdict::Neighbours
    } else if over_ratio(ops, ratio, 1, 2) {
        BudgetVerdict::Balanced
    } else {
        BudgetVerdict::Independent
    }
}

} // verus!
