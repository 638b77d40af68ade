//! How much the ODE distorts: gain, excess phase, harmonics and intermodulation.

use vstd::prelude::*;
use vstd::string::*;
use crate::arith::{Arith, Test, Traced, TracedVec, build, holds, pick_on, total};
#[allow(unused_imports)]
use crate::arith::{
    Binary, Expr, Unary, entry, fits, fits_all, fold_of, larger, minus, over, pick, plus, test_is,
    times, total_of, un, val, vals, zero,
};
use crate::coherence::{argmax, mags_on, phases_on};
#[allow(unused_imports)]
use crate::coherence::{last_top, mags_of, phases_of};
use crate::json::{Field, field, number, object, owned};
#[allow(unused_imports)]
use crate::json::{field_texts, member_text, object_text};
use crate::layers::{mean_on, traced};
#[allow(unused_imports)]
use crate::layers::mean_of;
use crate::ode::distortion_bands;
#[allow(unused_imports)]
use crate::ode::distortion_bands_of;
#[allow(unused_imports)]
use crate::text::decimal;
use crate::wave_analysis::sorted;
#[allow(unused_imports)]
use crate::wave_analysis::{counts_below, rising};
use crate::wave_analysis::count_below;

verus! {

/// The largest entry, from zero up.
pub open spec fn crest_of<T>(xs: Seq<Expr<T>>) -> Expr<T> {
    fold_of(Binary::Larger, zero(), xs)
}

/// The largest entry, from zero up, traced.
pub fn crest_on<T: Copy, A: Arith<T>>(ops: &A, xs: &TracedVec<T>) -> (out: Traced<T>)
    requires
        xs.ok(*ops),
    ensures
        out.ok(*ops),
        out.e@ == crest_of(xs.e@),
{
    let n: usize = xs.len();
    let mut acc: Traced<T> = Traced::ratio(ops, 0, 1);
    let mut i: usize = 0;
    assert(xs.e@.take(0) =~= Seq::<Expr<T>>::empty());
    while i < n
        invariant
            xs.ok(*ops),
            n == xs.v@.len(),
            i <= n,
            acc.ok(*ops),
            acc.e@ == crest_of(xs.e@.take(i as int)),
        decreases n - i,
    {
        acc = acc.larger(ops, xs.get(ops, i));
        assert(xs.e@.take(i + 1).drop_last() =~= xs.e@.take(i as int));
        i += 1;
    }
    assert(xs.e@.take(n as int) =~= xs.e@);
    acc
}

/// `count` of the first `n` entries exceed `limit`.
pub open spec fn counts_over<T: Copy, A: Arith<T>>(
    ops: A,
    limit: T,
    xs: Seq<T>,
    n: int,
    count: int,
) -> bool
    decreases n,
{
    if n <= 0 {
        count == 0
    } else {
        exists|more: bool| #[trigger]
            test_is(ops, Test::Exceeds, xs[n - 1], limit, more) && counts_over(
                ops,
                limit,
                xs,
                n - 1,
                if more {
                    count - 1
                } else {
                    count
                },
            )
    }
}

/// How many entries exceed a limit.
pub fn count_over<T: Copy, A: Arith<T>>(ops: &A, limit: T, xs: &Vec<T>) -> (count: usize)
    ensures
        count <= xs@.len(),
        counts_over(*ops, limit, xs@, xs@.len() as int, count as int),
{
    let n: usize = xs.len();
    let mut count: usize = 0;
    let mut i: usize = 0;
    while i < n
        invariant
            n == xs@.len(),
            count <= i <= n,
            counts_over(*ops, limit, xs@, i as int, count as int),
        decreases n - i,
    {
        let more: bool = holds(ops, Test::Exceeds, xs[i], limit);
        if more {
            count += 1;
        }
        i += 1;
        assert(test_is(*ops, Test::Exceeds, xs@[i - 1], limit, more));
    }
    count
}

/// A full turn.
pub open spec fn full_turn<T>() -> Expr<T> {
    times(Expr::Ratio(2, 1), Expr::Pi)
}

/// `y` is `x` after `n` full turns down, each taken because pi was exceeded.
pub open spec fn turned_down<T: Copy, A: Arith<T>>(ops: A, x: T, n: nat, y: T) -> bool
    decreases n,
{
    if n == 0 {
        y == x
    } else {
        exists|limit: T, held: T| #[trigger]
            test_is(ops, Test::Exceeds, held, limit, true) && fits(ops, Expr::Pi, limit)
                && turned_down(ops, x, (n - 1) as nat, held) && fits(
                ops,
                minus(val(held), full_turn()),
                y,
            )
    }
}

/// `y` is `x` after `n` full turns up, each taken because it lay below minus pi.
pub open spec fn turned_up<T: Copy, A: Arith<T>>(ops: A, x: T, n: nat, y: T) -> bool
    decreases n,
{
    if n == 0 {
        y == x
    } else {
        exists|limit: T, held: T| #[trigger]
            test_is(ops, Test::Exceeds, limit, held, true) && fits(
                ops,
                un(Unary::Negated, Expr::Pi),
                limit,
            ) && turned_up(ops, x, (n - 1) as nat, held) && fits(
                ops,
                plus(val(held), full_turn()),
                y,
            )
    }
}

/// Whether `x` exceeds pi came out as `c`.
pub open spec fn above_half<T: Copy, A: Arith<T>>(ops: A, x: T, c: bool) -> bool {
    exists|limit: T| #[trigger]
        test_is(ops, Test::Exceeds, x, limit, c) && fits(ops, Expr::Pi, limit)
}

/// Whether `x` lies below minus pi came out as `c`.
pub open spec fn below_half<T: Copy, A: Arith<T>>(ops: A, x: T, c: bool) -> bool {
    exists|limit: T| #[trigger]
        test_is(ops, Test::Exceeds, limit, x, c) && fits(ops, un(Unary::Negated, Expr::Pi), limit)
}

/// `y` is `x` brought back by full turns: down while it exceeds pi, then up while it lies
/// below minus pi.
pub open spec fn settles<T: Copy, A: Arith<T>>(ops: A, x: T, y: T) -> bool {
    exists|down: nat, mid: T, up: nat|
        #![trigger turned_down(ops, x, down, mid), turned_up(ops, mid, up, y)]
        turned_down(ops, x, down, mid) && above_half(ops, mid, false) && turned_up(
            ops,
            mid,
            up,
            y,
        ) && below_half(ops, y, false)
}

/// `x` still exceeds pi after `turns` full turns down.
pub open spec fn stays_above<T: Copy, A: Arith<T>>(ops: A, x: T, turns: nat) -> bool {
    exists|at: T| #[trigger] turned_down(ops, x, turns, at) && above_half(ops, at, true)
}

/// `x`, brought below pi, still lies below minus pi after `turns` full turns up.
pub open spec fn stays_below<T: Copy, A: Arith<T>>(ops: A, x: T, turns: nat) -> bool {
    exists|down: nat, mid: T, at: T|
        #![trigger turned_down(ops, x, down, mid), turned_up(ops, mid, turns, at)]
        turned_down(ops, x, down, mid) && above_half(ops, mid, false) && turned_up(
            ops,
            mid,
            turns,
            at,
        ) && below_half(ops, at, true)
}

/// Brings an angle back by full turns, `turns` either way at the most.
pub fn settle<T: Copy, A: Arith<T>>(ops: &A, x: T, turns: usize) -> (out: Option<T>)
    ensures
        out matches Some(y) ==> settles(*ops, x, y),
        out is None ==> stays_above(*ops, x, turns as nat) || stays_below(*ops, x, turns as nat),
{
    let half: Traced<T> = Traced::pi(ops);
    let low: Traced<T> = half.negated(ops);
    let turn: Traced<T> = Traced::ratio(ops, 2, 1).times(ops, half);
    let mut y: T = x;
    let mut down: usize = 0;
    let mut above: bool = holds(ops, Test::Exceeds, y, half.v);
    assert(test_is(*ops, Test::Exceeds, y, half.v, above));
    while above && down < turns
        invariant
            half.ok(*ops),
            half.e@ == Expr::<T>::Pi,
            turn.ok(*ops),
            turn.e@ == full_turn::<T>(),
            down <= turns,
            turned_down(*ops, x, down as nat, y),
            test_is(*ops, Test::Exceeds, y, half.v, above),
        decreases turns - down,
    {
        let ghost held = y;
        y = Traced::of(ops, y).minus(ops, turn).v;
        down += 1;
        proof {
            assert(((down as nat) - 1) as nat == (down - 1) as nat);
            assert(test_is(*ops, Test::Exceeds, held, half.v, true));
            assert(fits(*ops, Expr::<T>::Pi, half.v));
        }
        above = holds(ops, Test::Exceeds, y, half.v);
    }
    assert(fits(*ops, Expr::<T>::Pi, half.v));
    assert(above_half(*ops, y, above));
    if above {
        assert(turned_down(*ops, x, turns as nat, y));
        return None;
    }
    let ghost mid = y;
    let mut up: usize = 0;
    let mut below: bool = holds(ops, Test::Exceeds, low.v, y);
    while below && up < turns
        invariant
            low.ok(*ops),
            low.e@ == un(Unary::Negated, Expr::<T>::Pi),
            turn.ok(*ops),
            turn.e@ == full_turn::<T>(),
            up <= turns,
            turned_up(*ops, mid, up as nat, y),
            test_is(*ops, Test::Exceeds, low.v, y, below),
        decreases turns - up,
    {
        let ghost held = y;
        y = Traced::of(ops, y).plus(ops, turn).v;
        up += 1;
        proof {
            assert(((up as nat) - 1) as nat == (up - 1) as nat);
            assert(test_is(*ops, Test::Exceeds, low.v, held, true));
            assert(fits(*ops, un(Unary::Negated, Expr::<T>::Pi), low.v));
        }
        below = holds(ops, Test::Exceeds, low.v, y);
    }
    assert(fits(*ops, un(Unary::Negated, Expr::<T>::Pi), low.v));
    assert(below_half(*ops, y, below));
    if below {
        assert(turned_down(*ops, x, down as nat, mid) && turned_up(*ops, mid, turns as nat, y));
        return None;
    }
    assert(turned_down(*ops, x, down as nat, mid) && turned_up(*ops, mid, up as nat, y));
    Some(y)
}

/// What the ODE does to the bands between its input and its output.
pub struct OdeDistortion<T> {
    pub gain_mean: T,
    pub gain_max: T,
    /// Bands whose gain is below four fifths.
    pub n_compressed: usize,
    pub excess_phase_mean: T,
    pub excess_phase_max: T,
    /// Bands whose excess phase is above three tenths.
    pub n_phase_distorted: usize,
    pub thd_total: T,
    pub thd_max_band: usize,
    pub thd_max_value: T,
    /// Bands whose harmonic distortion is above a tenth.
    pub n_thd_over_10pct: usize,
    pub intermod_ratio: T,
}

/// The least that is divided by.
pub open spec fn least<T>() -> Expr<T> {
    Expr::Ratio(1, 100000000)
}

/// The gain of every band.
pub open spec fn gains_of<T>(mi: Seq<Expr<T>>, mo: Seq<Expr<T>>) -> Seq<Expr<T>> {
    Seq::new(mi.len(), |k: int| over(mo[k], larger(mi[k], least())))
}

/// What a band gained in energy: nothing where it lost.
pub open spec fn gained_of<T>(mi: Expr<T>, mo: Expr<T>) -> Expr<T> {
    larger(minus(times(mo, mo), times(mi, mi)), zero())
}

/// The energy gained at the harmonics of band `k`.
pub open spec fn harmonics_of<T>(mi: Seq<Expr<T>>, mo: Seq<Expr<T>>, k: int) -> Seq<Expr<T>> {
    distortion_bands_of(k, mi.len() as int).map_values(
        |h: usize| gained_of(mi[h as int], mo[h as int]),
    )
}

/// The harmonic distortion of band `k`: none where it is driven less than the median.
pub open spec fn thd_of<T>(mi: Seq<Expr<T>>, mo: Seq<Expr<T>>, median: T, k: int) -> Expr<T> {
    pick(
        Test::Exceeds,
        val(median),
        mi[k],
        zero(),
        over(
            un(Unary::Root, total_of(harmonics_of(mi, mo, k))),
            larger(un(Unary::Root, times(mo[k], mo[k])), least()),
        ),
    )
}

/// The harmonic distortion of every band.
pub open spec fn thds_of<T>(mi: Seq<Expr<T>>, mo: Seq<Expr<T>>, median: T) -> Seq<Expr<T>> {
    Seq::new(mi.len(), |k: int| thd_of(mi, mo, median, k))
}

/// The energy gained by the first `n` bands that are driven less than the median.
pub open spec fn leak_of<T>(mi: Seq<Expr<T>>, mo: Seq<Expr<T>>, median: T, n: int) -> Expr<T>
    decreases n,
{
    if n <= 0 {
        zero()
    } else {
        let rest = leak_of(mi, mo, median, n - 1);
        pick(
            Test::Exceeds,
            val(median),
            mi[n - 1],
            plus(rest, gained_of(mi[n - 1], mo[n - 1])),
            rest,
        )
    }
}

/// Squares.
pub open spec fn squares_of<T>(xs: Seq<Expr<T>>) -> Seq<Expr<T>> {
    Seq::new(xs.len(), |i: int| times(xs[i], xs[i]))
}

fn squares_on<T: Copy, A: Arith<T>>(ops: &A, xs: &TracedVec<T>) -> (out: TracedVec<T>)
    requires
        xs.ok(*ops),
    ensures
        out.ok(*ops),
        out.e@ == squares_of(xs.e@),
{
    let n: usize = xs.len();
    let f = |i: usize| -> (r: Traced<T>)
        requires
            i < n,
        ensures
            r.ok(*ops),
            r.e@ == entry(squares_of(xs.e@), i),
    {
        let x: Traced<T> = xs.get(ops, i);
        x.times(ops, x)
    };
    build(ops, n, Ghost(squares_of(xs.e@)), f)
}

/// How far the phase of a band is off: what it turned, brought back, less the turn that its
/// frequency gives, brought back again, without sign.
pub open spec fn excess_is<T: Copy, A: Arith<T>>(
    ops: A,
    phase_in: Expr<T>,
    phase_out: Expr<T>,
    omega: T,
    excess: T,
) -> bool {
    exists|raw: T, shift: T, off: T, end: T|
        #![trigger settles(ops, raw, shift), settles(ops, off, end)]
        fits(ops, minus(phase_out, phase_in), raw) && settles(ops, raw, shift) && fits(
            ops,
            minus(val(shift), times(val(omega), Expr::Ratio(1, 1))),
            off,
        ) && settles(ops, off, end) && fits(ops, un(Unary::Abs, val(end)), excess)
}

/// A limit given as a ratio, and how many entries exceed it.
pub open spec fn count_beyond<T: Copy, A: Arith<T>>(
    ops: A,
    xs: Seq<T>,
    num: u64,
    den: u64,
    count: usize,
) -> bool {
    exists|limit: T|
        fits(ops, Expr::Ratio(num, den), limit) && #[trigger] counts_over(
            ops,
            limit,
            xs,
            xs.len() as int,
            count as int,
        )
}

/// The gains of a measurement.
pub open spec fn gains_fit<T: Copy, A: Arith<T>>(
    ops: A,
    mi: Seq<Expr<T>>,
    mo: Seq<Expr<T>>,
    d: OdeDistortion<T>,
    gains: Seq<T>,
    limit: T,
) -> bool {
    &&& fits_all(ops, gains_of(mi, mo), gains)
    &&& fits(ops, mean_of(gains_of(mi, mo)), d.gain_mean)
    &&& fits(ops, crest_of(gains_of(mi, mo)), d.gain_max)
    &&& fits(ops, Expr::Ratio(8, 10), limit)
    &&& counts_below(ops, limit, gains, gains.len() as int, d.n_compressed as int)
}

/// The excess phases of a measurement.
pub open spec fn phases_fit<T: Copy, A: Arith<T>>(
    ops: A,
    pi: Seq<Expr<T>>,
    po: Seq<Expr<T>>,
    omega: Seq<T>,
    d: OdeDistortion<T>,
    excess: Seq<T>,
) -> bool {
    &&& excess.len() == pi.len()
    &&& forall|k: int|
        0 <= k < excess.len() ==> excess_is(ops, pi[k], po[k], omega[k], #[trigger] excess[k])
    &&& fits(ops, mean_of(vals(excess)), d.excess_phase_mean)
    &&& fits(ops, crest_of(vals(excess)), d.excess_phase_max)
    &&& count_beyond(ops, excess, 3, 10, d.n_phase_distorted)
}

/// The harmonics and the intermodulation of a measurement. `order` holds the magnitudes of
/// the input in rising order, and `thds` the distortions.
pub open spec fn harmonics_fit<T: Copy, A: Arith<T>>(
    ops: A,
    mi: Seq<Expr<T>>,
    mo: Seq<Expr<T>>,
    d: OdeDistortion<T>,
    mags: Seq<T>,
    order: Seq<T>,
    thds: Seq<T>,
) -> bool {
    let n = mi.len() as int;
    let median = order[n / 2];
    &&& fits_all(ops, mi, mags)
    &&& order.len() == n
    &&& order.to_multiset() == mags.to_multiset()
    &&& rising(ops, order)
    &&& fits_all(ops, thds_of(mi, mo, median), thds)
    &&& fits(
        ops,
        un(
            Unary::Root,
            over(total_of(squares_of(thds_of(mi, mo, median))), Expr::Count(n as usize)),
        ),
        d.thd_total,
    )
    &&& d.thd_max_band < n
    &&& last_top(ops, thds, n, d.thd_max_band as int)
    &&& d.thd_max_value == thds[d.thd_max_band as int]
    &&& count_beyond(ops, thds, 1, 10, d.n_thd_over_10pct)
    &&& fits(
        ops,
        over(leak_of(mi, mo, median, n), larger(total_of(squares_of(mo)), least())),
        d.intermod_ratio,
    )
}

/// A measurement fits the ODE's input and output.
pub open spec fn distortion_fits<T: Copy, A: Arith<T>>(
    ops: A,
    precond: Seq<T>,
    kerr_out: Seq<T>,
    omega: Seq<T>,
    n: int,
    d: OdeDistortion<T>,
) -> bool {
    let mi = mags_of(vals(precond), n);
    let mo = mags_of(vals(kerr_out), n);
    let pi = phases_of(vals(precond), n);
    let po = phases_of(vals(kerr_out), n);
    &&& exists|gains: Seq<T>, limit: T| #[trigger] gains_fit(ops, mi, mo, d, gains, limit)
    &&& exists|excess: Seq<T>| #[trigger] phases_fit(ops, pi, po, omega, d, excess)
    &&& exists|mags: Seq<T>, order: Seq<T>, thds: Seq<T>| #[trigger]
        harmonics_fit(ops, mi, mo, d, mags, order, thds)
}

fn excess_on<T: Copy, A: Arith<T>>(
    ops: &A,
    phase_in: Traced<T>,
    phase_out: Traced<T>,
    omega: T,
    turns: usize,
) -> (out: Option<T>)
    requires
        phase_in.ok(*ops),
        phase_out.ok(*ops),
    ensures
        out matches Some(e) ==> excess_is(*ops, phase_in.e@, phase_out.e@, omega, e),
        out is None ==> unsettled(*ops, phase_in.e@, phase_out.e@, omega, turns as nat),
{
    let raw: Traced<T> = phase_out.minus(ops, phase_in);
    let shift: T = match settle(ops, raw.v, turns) {
        Some(y) => y,
        None => {
            assert(fits(*ops, minus(phase_out.e@, phase_in.e@), raw.v));
            return None;
        },
    };
    let expected: Traced<T> = Traced::of(ops, omega).times(ops, Traced::ratio(ops, 1, 1));
    let off: Traced<T> = Traced::of(ops, shift).minus(ops, expected);
    let end: T = match settle(ops, off.v, turns) {
        Some(y) => y,
        None => {
            assert(settles(*ops, raw.v, shift) && fits(
                *ops,
                minus(val(shift), times(val(omega), Expr::Ratio(1, 1))),
                off.v,
            ));
            return None;
        },
    };
    assert(settles(*ops, raw.v, shift) && settles(*ops, off.v, end));
    Some(Traced::of(ops, end).abs(ops).v)
}

/// One of the two differences of a band is not brought back within `turns` full turns.
pub open spec fn unsettled<T: Copy, A: Arith<T>>(
    ops: A,
    phase_in: Expr<T>,
    phase_out: Expr<T>,
    omega: T,
    turns: nat,
) -> bool {
    ||| exists|raw: T| #[trigger]
        fits(ops, minus(phase_out, phase_in), raw) && (stays_above(ops, raw, turns)
            || stays_below(ops, raw, turns))
    ||| exists|raw: T, shift: T, off: T|
        fits(ops, minus(phase_out, phase_in), raw) && #[trigger] settles(ops, raw, shift)
            && #[trigger] fits(
            ops,
            minus(val(shift), times(val(omega), Expr::Ratio(1, 1))),
            off,
        ) && (stays_above(ops, off, turns) || stays_below(ops, off, turns))
}

fn gained_on<T: Copy, A: Arith<T>>(ops: &A, mi: Traced<T>, mo: Traced<T>) -> (out: Traced<T>)
    requires
        mi.ok(*ops),
        mo.ok(*ops),
    ensures
        out.ok(*ops),
        out.e@ == gained_of(mi.e@, mo.e@),
{
    mo.times(ops, mo).minus(ops, mi.times(ops, mi)).larger(ops, Traced::ratio(ops, 0, 1))
}

fn thd_on<T: Copy, A: Arith<T>>(
    ops: &A,
    mi: &TracedVec<T>,
    mo: &TracedVec<T>,
    median: T,
    k: usize,
) -> (out: Traced<T>)
    requires
        mi.ok(*ops),
        mo.ok(*ops),
        mi.v@.len() == mo.v@.len(),
        k < mi.v@.len(),
        7 * mi.v@.len() <= usize::MAX,
    ensures
        out.ok(*ops),
        out.e@ == thd_of(mi.e@, mo.e@, median, k as int),
{
    let n: usize = mi.len();
    let bands: Vec<usize> = distortion_bands(k, n);
    let count: usize = bands.len();
    let f = |i: usize| -> (r: Traced<T>)
        requires
            i < count,
        ensures
            r.ok(*ops),
            r.e@ == entry(harmonics_of(mi.e@, mo.e@, k as int), i),
    {
        let h: usize = bands[i];
        gained_on(ops, mi.get(ops, h), mo.get(ops, h))
    };
    let each: TracedVec<T> = build(ops, count, Ghost(harmonics_of(mi.e@, mo.e@, k as int)), f);
    let fund: Traced<T> = mo.get(ops, k).times(ops, mo.get(ops, k));
    let thd: Traced<T> = total(ops, &each).root(ops).over(
        ops,
        fund.root(ops).larger(ops, Traced::ratio(ops, 1, 100000000)),
    );
    pick_on(
        ops,
        Test::Exceeds,
        Traced::of(ops, median),
        mi.get(ops, k),
        Traced::ratio(ops, 0, 1),
        thd,
    )
}

/// Measures what the ODE does between its input and its output. Differences of phases are
/// brought back by full turns, `turns` either way at the most.
pub fn measure_distortion<T: Copy, A: Arith<T>>(
    ops: &A,
    precond: &[T],
    kerr_out: &[T],
    omega: &[T],
    n_bands: usize,
    turns: usize,
) -> (out: Option<OdeDistortion<T>>)
    requires
        0 < n_bands,
        7 * n_bands <= usize::MAX,
        2 * n_bands <= precond@.len(),
        2 * n_bands <= kerr_out@.len(),
        n_bands <= omega@.len(),
    ensures
        out matches Some(d) ==> distortion_fits(
            *ops,
            precond@,
            kerr_out@,
            omega@,
            n_bands as int,
            d,
        ),
        out is None ==> exists|k: int|
            0 <= k < n_bands && #[trigger] unsettled(
                *ops,
                phases_of(vals(precond@), n_bands as int)[k],
                phases_of(vals(kerr_out@), n_bands as int)[k],
                omega@[k],
                turns as nat,
            ),
{
    let n: usize = n_bands;
    let n_omega: usize = omega.len();
    let x: TracedVec<T> = traced(ops, precond);
    let y: TracedVec<T> = traced(ops, kerr_out);
    let mi: TracedVec<T> = mags_on(ops, &x, n);
    let mo: TracedVec<T> = mags_on(ops, &y, n);
    let pi: TracedVec<T> = phases_on(ops, &x, n);
    let po: TracedVec<T> = phases_on(ops, &y, n);
    let eps: Traced<T> = Traced::ratio(ops, 1, 100000000);
    let f = |k: usize| -> (r: Traced<T>)
        requires
            k < n,
        ensures
            r.ok(*ops),
            r.e@ == entry(gains_of(mi.e@, mo.e@), k),
    {
        mo.get(ops, k).over(ops, mi.get(ops, k).larger(ops, eps))
    };
    let gains: TracedVec<T> = build(ops, n, Ghost(gains_of(mi.e@, mo.e@)), f);
    let limit: Traced<T> = Traced::ratio(ops, 8, 10);
    let n_compressed: usize = count_below(ops, limit.v, &gains.v);
    let mut excess: Vec<T> = Vec::new();
    let mut k: usize = 0;
    while k < n
        invariant
            n <= n_omega,
            n_omega == omega@.len(),
            pi.ok(*ops),
            po.ok(*ops),
            n == n_bands,
            pi.v@.len() == n,
            po.v@.len() == n,
            pi.e@ == phases_of(vals(precond@), n as int),
            po.e@ == phases_of(vals(kerr_out@), n as int),
            k <= n,
            excess@.len() == k,
            forall|i: int|
                0 <= i < k ==> excess_is(
                    *ops,
                    pi.e@[i],
                    po.e@[i],
                    omega@[i],
                    #[trigger] excess@[i],
                ),
        decreases n - k,
    {
        match excess_on(ops, pi.get(ops, k), po.get(ops, k), omega[k], turns) {
            Some(e) => {
                excess.push(e);
            },
            None => {
                assert(unsettled(
                    *ops,
                    phases_of(vals(precond@), n_bands as int)[k as int],
                    phases_of(vals(kerr_out@), n_bands as int)[k as int],
                    omega@[k as int],
                    turns as nat,
                ));
                return None;
            },
        }
        k += 1;
    }
    let off: TracedVec<T> = traced(ops, &excess);
    let far: Traced<T> = Traced::ratio(ops, 3, 10);
    let n_phase_distorted: usize = count_over(ops, far.v, &excess);
    let order: Vec<T> = sorted(ops, &mi.v);
    let median: T = order[n / 2];
    let g = |k: usize| -> (r: Traced<T>)
        requires
            k < n,
        ensures
            r.ok(*ops),
            r.e@ == entry(thds_of(mi.e@, mo.e@, median), k),
    {
        thd_on(ops, &mi, &mo, median, k)
    };
    let thds: TracedVec<T> = build(ops, n, Ghost(thds_of(mi.e@, mo.e@, median)), g);
    let thd_total: Traced<T> = total(ops, &squares_on(ops, &thds)).over(
        ops,
        Traced::count(ops, n),
    ).root(ops);
    let band: usize = argmax(ops, &thds.v);
    let tenth: Traced<T> = Traced::ratio(ops, 1, 10);
    let n_thd: usize = count_over(ops, tenth.v, &thds.v);
    let mid: Traced<T> = Traced::of(ops, median);
    let mut leak: Traced<T> = Traced::ratio(ops, 0, 1);
    let mut j: usize = 0;
    while j < n
        invariant
            mi.ok(*ops),
            mo.ok(*ops),
            mi.v@.len() == n,
            mo.v@.len() == n,
            mid.ok(*ops),
            mid.e@ == val(median),
            j <= n,
            leak.ok(*ops),
            leak.e@ == leak_of(mi.e@, mo.e@, median, j as int),
        decreases n - j,
    {
        let more: Traced<T> = leak.plus(ops, gained_on(ops, mi.get(ops, j), mo.get(ops, j)));
        leak = pick_on(ops, Test::Exceeds, mid, mi.get(ops, j), more, leak);
        j += 1;
    }
    let whole: Traced<T> = total(ops, &squares_on(ops, &mo)).larger(ops, eps);
    let d = OdeDistortion {
        gain_mean: mean_on(ops, &gains).v,
        gain_max: crest_on(ops, &gains).v,
        n_compressed,
        excess_phase_mean: mean_on(ops, &off).v,
        excess_phase_max: crest_on(ops, &off).v,
        n_phase_distorted,
        thd_total: thd_total.v,
        thd_max_band: band,
        thd_max_value: thds.v[band],
        n_thd_over_10pct: n_thd,
        intermod_ratio: leak.over(ops, whole).v,
    };
    proof {
        assert(gains_fit(*ops, mi.e@, mo.e@, d, gains.v@, limit.v));
        assert(fits(*ops, Expr::<T>::Ratio(3, 10), far.v));
        assert(counts_over(
            *ops,
            far.v,
            excess@,
            excess@.len() as int,
            n_phase_distorted as int,
        ));
        assert(count_beyond(*ops, excess@, 3, 10, n_phase_distorted));
        assert(phases_fit(*ops, pi.e@, po.e@, omega@, d, excess@));
        assert(counts_over(*ops, tenth.v, thds.v@, thds.v@.len() as int, n_thd as int));
        assert(count_beyond(*ops, thds.v@, 1, 10, n_thd));
        assert(order@[n as int / 2] == median);
        assert(harmonics_fit(*ops, mi.e@, mo.e@, d, mi.v@, order@, thds.v@));
        assert(pi.e@ == phases_of(vals(precond@), n as int));
        assert(po.e@ == phases_of(vals(kerr_out@), n as int));
        assert(mi.e@ == mags_of(vals(precond@), n as int));
        assert(mo.e@ == mags_of(vals(kerr_out@), n as int));
        assert(distortion_fits(*ops, precond@, kerr_out@, omega@, n as int, d));
    }
    Some(d)
}

/// The members of a measurement in the log, with its numbers printed.
pub struct DistortionTexts {
    pub thd: String,
    pub thd_max_val: String,
    pub gain_mean: String,
    pub gain_max: String,
    pub excess_phase: String,
    pub intermod: String,
}

/// The fragment of a measurement.
pub open spec fn distortion_text(
    t: DistortionTexts,
    thd_max_band: nat,
    n_thd: nat,
    n_compressed: nat,
    n_distorted: nat,
) -> Seq<char> {
    member_text(
        "ode_distortion"@,
        object_text(
            seq![
                ("thd"@, t.thd@),
                ("thd_max_band"@, decimal(thd_max_band)),
                ("thd_max_val"@, t.thd_max_val@),
                ("n_thd_10pct"@, decimal(n_thd)),
                ("gain_mean"@, t.gain_mean@),
                ("gain_max"@, t.gain_max@),
                ("n_compressed"@, decimal(n_compressed)),
                ("excess_phase"@, t.excess_phase@),
                ("n_distorted"@, decimal(n_distorted)),
                ("intermod"@, t.intermod@),
            ],
        ),
    )
}

/// A member of an object.
pub fn member(key: &str, value: &str) -> (out: String)
    ensures
        out@ == member_text(key@, value@),
{
    let mut out: String = String::from_str("\"");
    out.append(key);
    out.append("\":");
    out.append(value);
    assert(out@ =~= member_text(key@, value@));
    out
}

/// The fragment of a measurement.
pub fn to_json<T: Copy>(d: &OdeDistortion<T>, t: &DistortionTexts) -> (out: String)
    ensures
        out@ == distortion_text(
            *t,
            d.thd_max_band as nat,
            d.n_thd_over_10pct as nat,
            d.n_compressed as nat,
            d.n_phase_distorted as nat,
        ),
{
    let mut fields: Vec<Field> = Vec::new();
    fields.push(field("thd", owned(t.thd.as_str())));
    fields.push(field("thd_max_band", number(d.thd_max_band)));
    fields.push(field("thd_max_val", owned(t.thd_max_val.as_str())));
    fields.push(field("n_thd_10pct", number(d.n_thd_over_10pct)));
    fields.push(field("gain_mean", owned(t.gain_mean.as_str())));
    fields.push(field("gain_max", owned(t.gain_max.as_str())));
    fields.push(field("n_compressed", number(d.n_compressed)));
    fields.push(field("excess_phase", owned(t.excess_phase.as_str())));
    fields.push(field("n_distorted", number(d.n_phase_distorted)));
    fields.push(field("intermod", owned(t.intermod.as_str())));
    let body: String = object(&fields);
    assert(field_texts(fields@) =~= seq![
        ("thd"@, t.thd@),
        ("thd_max_band"@, decimal(d.thd_max_band as nat)),
        ("thd_max_val"@, t.thd_max_val@),
        ("n_thd_10pct"@, decimal(d.n_thd_over_10pct as nat)),
        ("gain_mean"@, t.gain_mean@),
        ("gain_max"@, t.gain_max@),
        ("n_compressed"@, decimal(d.n_compressed as nat)),
        ("excess_phase"@, t.excess_phase@),
        ("n_distorted"@, decimal(d.n_phase_distorted as nat)),
        ("intermod"@, t.intermod@),
    ]);
    member("ode_distortion", body.as_str())
}

} // verus!
