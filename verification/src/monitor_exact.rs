//! In exact arithmetic: what is measured of the oscillators.

use vstd::prelude::*;
use crate::arith::Arith;
#[allow(unused_imports)]
use crate::arith::{
    Expr, Test, Unary, fits, larger, minus, one, over, plus, test_is, times, total_of, un, val,
    vals,
};
#[allow(unused_imports)]
use crate::analysis_exact::{how_many_below, law_counts_what_is_below};
#[allow(unused_imports)]
use crate::averages::{
    is_mean, lemma_by_one, lemma_cancel, lemma_cancel_ordered, lemma_either_way, lemma_mean_value,
    lemma_quotient_undone, lemma_summed_alike, lemma_summed_ordered,
};
#[allow(unused_imports)]
use crate::coherence::phases_of;
#[allow(unused_imports)]
use crate::correlation_exact::{lemma_square, root_squares};
#[allow(unused_imports)]
use crate::decode_exact::{law_last_top_is_largest, phase_in};
#[allow(unused_imports)]
use crate::exact::{Curves, Dual, holds_of, inverse, lemma_nothing, lemma_three, prod, value};
#[allow(unused_imports)]
use crate::layers::mean_of;
#[allow(unused_imports)]
use crate::linear_exact::{lemma_summed_same, summed};
#[allow(unused_imports)]
use crate::ode::distortion_bands_of;
#[allow(unused_imports)]
use crate::ode_distortion::{
    OdeDistortion, above_half, below_half, crest_of, excess_is, full_turn, gained_of, gains_fit,
    gains_of, harmonics_fit, harmonics_of, leak_of, least, settles, squares_of, thd_of, thds_of,
    turned_down, turned_up,
};
#[allow(unused_imports)]
use crate::ode_monitor::{
    OdeDynamicsStats, dynamics_fit, energies_of, rate_of, scatter_of, sizes_of, throughput_of,
    turns_of, unevenness_of,
};
#[allow(unused_imports)]
use crate::structure_exact::energy_in;
#[allow(unused_imports)]
use crate::sub_harmonic::wrapped_of;
#[allow(unused_imports)]
use crate::training_exact::size;
#[allow(unused_imports)]
use crate::values::{exact, group_value, lemma_fits, lemma_fits_all, lemma_total, lemma_whole};

verus! {

/// A difference of two phases, less or more a whole turn where it lies beyond half a turn.
pub open spec fn brought_back(pi: real, d: real) -> real {
    if d > pi {
        d - 2real * pi
    } else if d < -pi {
        d + 2real * pi
    } else {
        d
    }
}

/// The deviation of energies from their mean.
pub open spec fn spread_over(
    cu: Curves,
    e: spec_fn(int) -> real,
    n: int,
    mean: real,
    deviation: real,
) -> bool {
    &&& is_mean(mean, e, n)
    &&& deviation >= 0real
    &&& is_mean(prod(deviation, deviation), |k: int| prod(e(k) - mean, e(k) - mean), n)
}

/// What is measured of a layer's oscillators: the energies that go in and come out, their ratio
/// and what it leaves of one, the mean size of the turns of the phases, and the deviation of the
/// energies that come out.
#[verifier::spinoff_prover]
pub proof fn law_dynamics_measure_energy<A: Arith<Dual>>(
    cu: Curves,
    ops: A,
    precond: Seq<Dual>,
    kerr_out: Seq<Dual>,
    n: int,
    s: OdeDynamicsStats<Dual>,
)
    requires
        exact(cu, ops),
        dynamics_fit(ops, precond, kerr_out, n, s),
        0 <= n,
        2 * n <= precond.len(),
        2 * n <= kerr_out.len(),
    ensures
        s.energy_in.v == summed(|k: int| energy_in(|i: int| precond[i].v, n, k), n),
        s.energy_out.v == summed(|k: int| energy_in(|i: int| kerr_out[i].v, n, k), n),
        s.energy_in.v > 1real / 1000000000000real ==> prod(s.energy_ratio.v, s.energy_in.v)
            == s.energy_out.v,
        s.energy_in.v <= 1real / 1000000000000real ==> s.energy_ratio.v == 1real,
        s.damping_effective.v + s.energy_ratio.v == 1real,
{
    broadcast use group_value;

    let (x, y) = (vals(precond), vals(kerr_out));
    let ein = total_of(energies_of(x, n));
    let eout = total_of(energies_of(y, n));
    lemma_fits(cu, ops, ein, s.energy_in);
    lemma_fits(cu, ops, eout, s.energy_out);
    lemma_fits(cu, ops, throughput_of(ein, eout), s.energy_ratio);
    lemma_fits(cu, ops, minus(one(), throughput_of(ein, eout)), s.damping_effective);
    lemma_energy_sum(cu, precond, n);
    lemma_energy_sum(cu, kerr_out, n);
    assert(value(cu, Expr::<Dual>::Ratio(1, 1000000000000)) == 1real / 1000000000000real);
    if s.energy_in.v > 1real / 1000000000000real {
        lemma_quotient_undone(s.energy_out.v, s.energy_in.v);
    }
}

#[verifier::spinoff_prover]
proof fn lemma_energy_sum(cu: Curves, x: Seq<Dual>, n: int)
    requires
        0 <= n,
        2 * n <= x.len(),
    ensures
        value(cu, total_of(energies_of(vals(x), n))) == summed(
            |k: int| energy_in(|i: int| x[i].v, n, k),
            n,
        ),
        forall|k: int|
            0 <= k < n ==> value(cu, #[trigger] energies_of(vals(x), n)[k]) == energy_in(
                |i: int| x[i].v,
                n,
                k,
            ),
{
    broadcast use group_value;

    let es = energies_of(vals(x), n);
    lemma_total(cu, es);
    let given = |k: int| value(cu, es[k]);
    let wanted = |k: int| energy_in(|i: int| x[i].v, n, k);
    assert forall|k: int| 0 <= k < n implies #[trigger] given(k) == wanted(k) by {
        assert(vals(x)[2 * k] == val(x[2 * k]));
        assert(vals(x)[2 * k + 1] == val(x[2 * k + 1]));
    }
    lemma_summed_same(given, wanted, n);
    assert forall|k: int| 0 <= k < n implies value(cu, #[trigger] es[k]) == energy_in(
        |i: int| x[i].v,
        n,
        k,
    ) by {
        assert(given(k) == wanted(k));
    }
}

/// The mean size of the turns of the phases, each within half a turn either way.
#[verifier::spinoff_prover]
pub proof fn law_phase_velocity_averages_turns<A: Arith<Dual>>(
    cu: Curves,
    ops: A,
    precond: Seq<Dual>,
    kerr_out: Seq<Dual>,
    n: int,
    s: OdeDynamicsStats<Dual>,
)
    requires
        exact(cu, ops),
        dynamics_fit(ops, precond, kerr_out, n, s),
        cu.pi > 0real,
        forall|y: real, x: real| -cu.pi <= #[trigger] (cu.angle)(y, x) <= cu.pi,
        0 < n <= usize::MAX,
        2 * n <= precond.len(),
        2 * n <= kerr_out.len(),
    ensures
        is_mean(
            s.phase_velocity.v,
            |k: int|
                size(
                    brought_back(
                        cu.pi,
                        phase_in(cu, |i: int| kerr_out[i].v, k) - phase_in(
                            cu,
                            |i: int| precond[i].v,
                            k,
                        ),
                    ),
                ),
            n,
        ),
{
    broadcast use group_value;

    let (x, y) = (vals(precond), vals(kerr_out));
    let list = sizes_of(turns_of(x, y, n));
    lemma_fits(cu, ops, mean_of(list), s.phase_velocity);
    lemma_mean_value(cu, list);
    let given = |k: int| value(cu, list[k]);
    let wanted = |k: int|
        size(
            brought_back(
                cu.pi,
                phase_in(cu, |i: int| kerr_out[i].v, k) - phase_in(
                    cu,
                    |i: int| precond[i].v,
                    k,
                ),
            ),
        );
    lemma_whole(cu, 2);
    lemma_doubled(cu.pi);
    assert forall|k: int| 0 <= k < n implies #[trigger] given(k) == wanted(k) by {
        assert(x[2 * k] == val(precond[2 * k]));
        assert(x[2 * k + 1] == val(precond[2 * k + 1]));
        assert(y[2 * k] == val(kerr_out[2 * k]));
        assert(y[2 * k + 1] == val(kerr_out[2 * k + 1]));
        let d = minus(phases_of(y, n)[k], phases_of(x, n)[k]);
        assert(turns_of(x, y, n)[k] == wrapped_of(d));
        let v = value(cu, d);
        assert(v == phase_in(cu, |i: int| kerr_out[i].v, k) - phase_in(
            cu,
            |i: int| precond[i].v,
            k,
        ));
        assert(value(cu, wrapped_of(d)) == brought_back(cu.pi, v));
    }
    lemma_summed_same(given, wanted, n);
}

#[verifier::spinoff_prover]
proof fn lemma_doubled(x: real)
    ensures
        prod(2real, x) == 2real * x,
{
    reveal(prod);
}

#[verifier::spinoff_prover]
proof fn lemma_mean_not_negative(m: real, f: spec_fn(int) -> real, n: int)
    requires
        n > 0,
        is_mean(m, f, n),
        forall|i: int| 0 <= i < n ==> #[trigger] f(i) >= 0real,
    ensures
        m >= 0real,
{
    let none = |i: int| 0real;
    lemma_summed_ordered(none, f, n);
    lemma_summed_alike(none, 0real, n);
    lemma_cancel_ordered(0real, m, n as real);
}

/// How unevenly energies are spread over more than one band: their deviation from the mean.
#[verifier::spinoff_prover]
pub proof fn law_unevenness_is_deviation(cu: Curves, es: Seq<Expr<Dual>>, mean: real)
    requires
        root_squares(cu),
        es.len() <= usize::MAX,
        is_mean(mean, |k: int| value(cu, es[k]), es.len() as int),
    ensures
        es.len() <= 1 ==> value(cu, unevenness_of(es)) == 0real,
        es.len() > 1 ==> spread_over(
            cu,
            |k: int| value(cu, es[k]),
            es.len() as int,
            mean,
            value(cu, unevenness_of(es)),
        ),
{
    broadcast use group_value;

    let n = es.len() as int;
    if n > 1 {
        let e = |k: int| value(cu, es[k]);
        lemma_mean_value(cu, es);
        lemma_cancel(value(cu, mean_of(es)), mean, n as real);
        let devs = scatter_of(es);
        lemma_mean_value(cu, devs);
        let given = |k: int| value(cu, devs[k]);
        let apart = |k: int| prod(e(k) - mean, e(k) - mean);
        assert forall|k: int| 0 <= k < n implies #[trigger] given(k) == apart(k) by {}
        lemma_summed_same(given, apart, n);
        let variance = value(cu, over(total_of(devs), Expr::Count(n as usize)));
        assert forall|k: int| 0 <= k < n implies #[trigger] apart(k) >= 0real by {
            lemma_square(e(k) - mean);
        }
        lemma_mean_not_negative(variance, apart, n);
    }
}

/// A rate for every second, times the seconds, is what happened in them.
#[verifier::spinoff_prover]
pub proof fn law_rate_is_per_second(cu: Curves, x: Expr<Dual>, ms: Dual)
    ensures
        ms.v > 0real ==> prod(value(cu, rate_of(x, ms)), ms.v) == 1000real * value(cu, x),
        ms.v <= 0real ==> value(cu, rate_of(x, ms)) == 0real,
{
    broadcast use group_value;

    lemma_whole(cu, 1000);
    let secs = prod(ms.v, inverse(1000real));
    lemma_quotient_undone(ms.v, 1000real);
    lemma_thousandth(ms.v, secs);
    if ms.v > 0real {
        let r = prod(value(cu, x), inverse(secs));
        lemma_quotient_undone(value(cu, x), secs);
        lemma_three(r, secs, 1000real);
        lemma_thousand(value(cu, x));
    }
}

#[verifier::spinoff_prover]
proof fn lemma_thousandth(ms: real, secs: real)
    requires
        prod(secs, 1000real) == ms,
    ensures
        ms > 0real <==> secs > 0real,
{
    reveal(prod);
}

#[verifier::spinoff_prover]
proof fn lemma_thousand(x: real)
    ensures
        prod(x, 1000real) == 1000real * x,
{
    reveal(prod);
}

/// The largest of some entries and nothing.
#[verifier::spinoff_prover]
proof fn lemma_crest(cu: Curves, xs: Seq<Expr<Dual>>)
    ensures
        value(cu, crest_of(xs)) >= 0real,
        forall|k: int| 0 <= k < xs.len() ==> value(cu, #[trigger] xs[k]) <= value(cu, crest_of(xs)),
        value(cu, crest_of(xs)) == 0real || exists|k: int|
            0 <= k < xs.len() && value(cu, #[trigger] xs[k]) == value(cu, crest_of(xs)),
    decreases xs.len(),
{
    broadcast use group_value;

    if xs.len() > 0 {
        let n = xs.len() as int;
        let before = xs.drop_last();
        lemma_crest(cu, before);
        assert(crest_of(xs) == larger(crest_of(before), xs[n - 1]));
        assert forall|k: int| 0 <= k < n implies value(cu, #[trigger] xs[k]) <= value(
            cu,
            crest_of(xs),
        ) by {
            if k < n - 1 {
                assert(before[k] == xs[k]);
            }
        }
        if value(cu, crest_of(xs)) != 0real && value(cu, xs[n - 1]) != value(cu, crest_of(xs)) {
            let k = choose|k: int|
                0 <= k < before.len() && value(cu, #[trigger] before[k]) == value(
                    cu,
                    crest_of(before),
                );
            assert(xs[k] == before[k]);
        }
    }
}

/// The gains of a measurement: each times what goes in, where that is not faint, is what comes
/// out; the mean is their mean, the largest none exceeds, and those below four fifths are counted.
#[verifier::spinoff_prover]
pub proof fn law_gains_compare_magnitudes<A: Arith<Dual>>(
    cu: Curves,
    ops: A,
    mi: Seq<Expr<Dual>>,
    mo: Seq<Expr<Dual>>,
    d: OdeDistortion<Dual>,
    gains: Seq<Dual>,
    limit: Dual,
)
    requires
        exact(cu, ops),
        gains_fit(ops, mi, mo, d, gains, limit),
        0 < mi.len() <= usize::MAX,
        mo.len() == mi.len(),
    ensures
        gains.len() == mi.len(),
        forall|k: int|
            0 <= k < gains.len() && value(cu, mi[k]) >= 1real / 100000000real ==> prod(
                (#[trigger] gains[k]).v,
                value(cu, mi[k]),
            ) == value(cu, mo[k]),
        is_mean(d.gain_mean.v, |k: int| gains[k].v, gains.len() as int),
        forall|k: int| 0 <= k < gains.len() ==> (#[trigger] gains[k]).v <= d.gain_max.v,
        d.gain_max.v == 0real || exists|k: int|
            0 <= k < gains.len() && (#[trigger] gains[k]).v == d.gain_max.v,
        d.n_compressed == how_many_below(8real / 10real, gains, gains.len() as int),
{
    broadcast use group_value;

    let es = gains_of(mi, mo);
    let n = mi.len() as int;
    lemma_fits_all(cu, ops, es, gains);
    lemma_fits(cu, ops, mean_of(es), d.gain_mean);
    lemma_fits(cu, ops, crest_of(es), d.gain_max);
    lemma_fits(cu, ops, Expr::Ratio(8, 10), limit);
    assert(value(cu, Expr::<Dual>::Ratio(8, 10)) == 8real / 10real);
    assert(value(cu, Expr::<Dual>::Ratio(1, 100000000)) == 1real / 100000000real);
    law_counts_what_is_below(cu, ops, limit, gains, n, d.n_compressed as int);
    lemma_mean_value(cu, es);
    lemma_summed_same(|k: int| value(cu, es[k]), |k: int| gains[k].v, n);
    lemma_crest(cu, es);
    assert forall|k: int| 0 <= k < n implies (#[trigger] gains[k]).v <= d.gain_max.v by {
        assert(value(cu, es[k]) <= value(cu, crest_of(es)));
    }
    if d.gain_max.v != 0real {
        let k = choose|k: int|
            0 <= k < es.len() && value(cu, #[trigger] es[k]) == value(cu, crest_of(es));
        assert(gains[k].v == d.gain_max.v);
    }
    assert forall|k: int|
        0 <= k < gains.len() && value(cu, mi[k]) >= 1real / 100000000real implies prod(
        (#[trigger] gains[k]).v,
        value(cu, mi[k]),
    ) == value(cu, mo[k]) by {
        lemma_quotient_undone(value(cu, mo[k]), value(cu, mi[k]));
        assert(gains[k].v == value(cu, es[k]));
    }
}

/// `y` is `x` and a number of whole turns.
pub open spec fn turns_apart(cu: Curves, x: real, y: real, turns: int) -> bool {
    y == x + prod(turns as real, 2real * cu.pi)
}

#[verifier::spinoff_prover]
proof fn lemma_one_more(a: int, b: int, t: real)
    requires
        b == a + 1 || b == a - 1,
    ensures
        b == a + 1 ==> prod(b as real, t) == prod(a as real, t) + t,
        b == a - 1 ==> prod(b as real, t) == prod(a as real, t) - t,
{
    reveal(prod);
    if b == a + 1 {
        assert(b as real == a as real + 1real);
    } else {
        assert(b as real == a as real - 1real);
    }
    let (x, y) = (a as real, b as real);
    assert(y == x + 1real ==> y * t == x * t + t) by (nonlinear_arith);
    assert(y == x - 1real ==> y * t == x * t - t) by (nonlinear_arith);
}

#[verifier::spinoff_prover]
proof fn lemma_turned_down<A: Arith<Dual>>(cu: Curves, ops: A, x: Dual, n: nat, y: Dual)
    requires
        exact(cu, ops),
        turned_down(ops, x, n, y),
    ensures
        turns_apart(cu, x.v, y.v, -(n as int)),
    decreases n,
{
    broadcast use group_value;

    lemma_nothing(2real * cu.pi);
    lemma_either_way(0real, 2real * cu.pi);
    if n > 0 {
        let (limit, held) = choose|limit: Dual, held: Dual| #[trigger]
            test_is(ops, Test::Exceeds, held, limit, true) && fits(ops, Expr::Pi, limit)
                && turned_down(ops, x, (n - 1) as nat, held) && fits(
                ops,
                minus(val(held), full_turn()),
                y,
            );
        lemma_turned_down(cu, ops, x, (n - 1) as nat, held);
        lemma_fits(cu, ops, minus(val(held), full_turn()), y);
        lemma_whole(cu, 2);
        lemma_doubled(cu.pi);
        lemma_one_more(-(n - 1), -(n as int), 2real * cu.pi);
    }
}

#[verifier::spinoff_prover]
proof fn lemma_turned_up<A: Arith<Dual>>(cu: Curves, ops: A, x: Dual, n: nat, y: Dual)
    requires
        exact(cu, ops),
        turned_up(ops, x, n, y),
    ensures
        turns_apart(cu, x.v, y.v, n as int),
        n > 0 && cu.pi > 0real ==> y.v < cu.pi,
    decreases n,
{
    broadcast use group_value;

    lemma_nothing(2real * cu.pi);
    lemma_either_way(0real, 2real * cu.pi);
    if n > 0 {
        let (limit, held) = choose|limit: Dual, held: Dual| #[trigger]
            test_is(ops, Test::Exceeds, limit, held, true) && fits(
                ops,
                un(Unary::Negated, Expr::Pi),
                limit,
            ) && turned_up(ops, x, (n - 1) as nat, held) && fits(
                ops,
                plus(val(held), full_turn()),
                y,
            );
        lemma_turned_up(cu, ops, x, (n - 1) as nat, held);
        lemma_fits(cu, ops, plus(val(held), full_turn()), y);
        lemma_fits(cu, ops, un(Unary::Negated, Expr::Pi), limit);
        lemma_whole(cu, 2);
        lemma_doubled(cu.pi);
        lemma_one_more(n - 1, n as int, 2real * cu.pi);
        assert(true == holds_of(Test::Exceeds, limit.v, held.v));
    }
}

/// What settles lies within half a turn either way, whole turns from where it was.
#[verifier::spinoff_prover]
pub proof fn law_settled_angles_lie_within_half_a_turn<A: Arith<Dual>>(
    cu: Curves,
    ops: A,
    x: Dual,
    y: Dual,
)
    requires
        exact(cu, ops),
        cu.pi > 0real,
        settles(ops, x, y),
    ensures
        -cu.pi <= y.v <= cu.pi,
        exists|turns: int| #[trigger] turns_apart(cu, x.v, y.v, turns),
{
    broadcast use group_value;

    let (down, mid, up) = choose|down: nat, mid: Dual, up: nat|
        #![trigger turned_down(ops, x, down, mid), turned_up(ops, mid, up, y)]
        turned_down(ops, x, down, mid) && above_half(ops, mid, false) && turned_up(
            ops,
            mid,
            up,
            y,
        ) && below_half(ops, y, false);
    lemma_turned_down(cu, ops, x, down, mid);
    lemma_turned_up(cu, ops, mid, up, y);
    let high = choose|limit: Dual| #[trigger]
        test_is(ops, Test::Exceeds, mid, limit, false) && fits(ops, Expr::Pi, limit);
    lemma_fits(cu, ops, Expr::Pi, high);
    assert(false == holds_of(Test::Exceeds, mid.v, high.v));
    let low = choose|limit: Dual| #[trigger]
        test_is(ops, Test::Exceeds, limit, y, false) && fits(
            ops,
            un(Unary::Negated, Expr::Pi),
            limit,
        );
    lemma_fits(cu, ops, un(Unary::Negated, Expr::Pi), low);
    assert(false == holds_of(Test::Exceeds, low.v, y.v));
    lemma_added(up as real, -(down as int) as real, 2real * cu.pi);
    assert((up - down) as real == up as real + (-(down as int)) as real);
    assert(turns_apart(cu, x.v, y.v, up - down));
    if up == 0 {
        assert(y == mid);
    }
}

#[verifier::spinoff_prover]
proof fn lemma_added(a: real, b: real, t: real)
    ensures
        prod(a + b, t) == prod(a, t) + prod(b, t),
{
    reveal(prod);
    assert((a + b) * t == a * t + b * t) by (nonlinear_arith);
}

/// How far a phase is off lies between nothing and half a turn, and is the size of what the phase
/// turned less the turn of its frequency, whole turns apart.
#[verifier::spinoff_prover]
pub proof fn law_excess_phase_is_what_frequency_leaves<A: Arith<Dual>>(
    cu: Curves,
    ops: A,
    before: Expr<Dual>,
    after: Expr<Dual>,
    omega: Dual,
    excess: Dual,
)
    requires
        exact(cu, ops),
        cu.pi > 0real,
        excess_is(ops, before, after, omega, excess),
    ensures
        0real <= excess.v <= cu.pi,
        exists|turns: int, end: real|
            {
                &&& #[trigger] turns_apart(
                    cu,
                    value(cu, after) - value(cu, before) - omega.v,
                    end,
                    turns,
                )
                &&& size(end) == excess.v
            },
{
    broadcast use group_value;

    let (raw, shift, off, end) = choose|raw: Dual, shift: Dual, off: Dual, end: Dual|
        #![trigger settles(ops, raw, shift), settles(ops, off, end)]
        fits(ops, minus(after, before), raw) && settles(ops, raw, shift) && fits(
            ops,
            minus(val(shift), times(val(omega), Expr::Ratio(1, 1))),
            off,
        ) && settles(ops, off, end) && fits(ops, un(Unary::Abs, val(end)), excess);
    lemma_fits(cu, ops, minus(after, before), raw);
    lemma_fits(cu, ops, minus(val(shift), times(val(omega), Expr::Ratio(1, 1))), off);
    lemma_fits(cu, ops, un(Unary::Abs, val(end)), excess);
    law_settled_angles_lie_within_half_a_turn(cu, ops, raw, shift);
    law_settled_angles_lie_within_half_a_turn(cu, ops, off, end);
    let a = choose|turns: int| #[trigger] turns_apart(cu, raw.v, shift.v, turns);
    let b = choose|turns: int| #[trigger] turns_apart(cu, off.v, end.v, turns);
    lemma_whole(cu, 1);
    lemma_by_one(omega.v);
    lemma_added(a as real, b as real, 2real * cu.pi);
    assert((a + b) as real == a as real + b as real);
    assert(turns_apart(
        cu,
        value(cu, after) - value(cu, before) - omega.v,
        end.v,
        a + b,
    ));
}

/// What a band gained in energy is never negative: the difference of the squares of its
/// magnitudes, or nothing where it lost.
#[verifier::spinoff_prover]
pub proof fn law_gained_energy_counts_gains_alone(cu: Curves, mi: Expr<Dual>, mo: Expr<Dual>)
    ensures
        ({
            let g = value(cu, gained_of(mi, mo));
            let d = prod(value(cu, mo), value(cu, mo)) - prod(value(cu, mi), value(cu, mi));
            &&& g >= 0real
            &&& d >= 0real ==> g == d
            &&& d <= 0real ==> g == 0real
        }),
{
    broadcast use group_value;

}

/// What leaks into the first `n` bands that are driven less than the median: what they gained.
#[verifier::spinoff_prover]
pub proof fn law_leak_adds_up_gains(
    cu: Curves,
    mi: Seq<Expr<Dual>>,
    mo: Seq<Expr<Dual>>,
    median: Dual,
    n: int,
)
    requires
        0 <= n,
    ensures
        value(cu, leak_of(mi, mo, median, n)) == summed(
            |k: int|
                if value(cu, mi[k]) < median.v {
                    value(cu, gained_of(mi[k], mo[k]))
                } else {
                    0real
                },
            n,
        ),
    decreases n,
{
    broadcast use group_value;

    if n > 0 {
        law_leak_adds_up_gains(cu, mi, mo, median, n - 1);
    }
}

#[verifier::spinoff_prover]
proof fn lemma_positive_square(x: real)
    requires
        x > 0real,
    ensures
        prod(x, x) > 0real,
{
    reveal(prod);
    assert(x * x > 0real) by (nonlinear_arith)
        requires
            x > 0real,
    ;
}

#[verifier::spinoff_prover]
proof fn lemma_same_root(a: real, b: real)
    requires
        a >= 0real,
        b >= 0real,
        prod(a, a) == prod(b, b),
    ensures
        a == b,
{
    reveal(prod);
    assert(a == b) by (nonlinear_arith)
        requires
            a >= 0real,
            b >= 0real,
            a * a == b * b,
    ;
}

#[verifier::spinoff_prover]
proof fn lemma_gains_not_negative(cu: Curves, list: Seq<Expr<Dual>>)
    requires
        forall|k: int| 0 <= k < list.len() ==> value(cu, #[trigger] list[k]) >= 0real,
    ensures
        value(cu, total_of(list)) >= 0real,
{
    lemma_total(cu, list);
    let none = |k: int| 0real;
    let f = |k: int| value(cu, list[k]);
    lemma_summed_ordered(none, f, list.len() as int);
    lemma_summed_alike(none, 0real, list.len() as int);
    lemma_nothing(list.len() as real);
    lemma_either_way(0real, list.len() as real);
}

/// The harmonic distortion of a band: nothing where it is driven less than the median; else, where
/// the band comes out with more than a faint magnitude, its square times the square of the
/// magnitude is the energy gained at the band's harmonics.
#[verifier::spinoff_prover]
pub proof fn law_distortion_is_energy_at_harmonics(
    cu: Curves,
    mi: Seq<Expr<Dual>>,
    mo: Seq<Expr<Dual>>,
    median: Dual,
    k: int,
)
    requires
        root_squares(cu),
        0 <= k < mi.len(),
        value(cu, mo[k]) >= 1real / 100000000real,
    ensures
        ({
            let thd = value(cu, thd_of(mi, mo, median, k));
            let out = value(cu, mo[k]);
            let bands = distortion_bands_of(k, mi.len() as int);
            &&& value(cu, mi[k]) < median.v ==> thd == 0real
            &&& value(cu, mi[k]) >= median.v ==> thd >= 0real && prod(
                prod(thd, thd),
                prod(out, out),
            ) == summed(
                |i: int| value(cu, gained_of(mi[bands[i] as int], mo[bands[i] as int])),
                bands.len() as int,
            )
        }),
{
    broadcast use group_value;

    let out = value(cu, mo[k]);
    let bands = distortion_bands_of(k, mi.len() as int);
    let list = harmonics_of(mi, mo, k);
    assert(value(cu, Expr::<Dual>::Ratio(1, 100000000)) == 1real / 100000000real);
    if value(cu, mi[k]) >= median.v {
        let e = value(cu, total_of(list));
        lemma_total(cu, list);
        lemma_summed_same(
            |i: int| value(cu, list[i]),
            |i: int| value(cu, gained_of(mi[bands[i] as int], mo[bands[i] as int])),
            bands.len() as int,
        );
        assert forall|i: int| 0 <= i < list.len() implies value(cu, #[trigger] list[i])
            >= 0real by {
            law_gained_energy_counts_gains_alone(
                cu,
                mi[bands[i] as int],
                mo[bands[i] as int],
            );
        }
        lemma_gains_not_negative(cu, list);
        lemma_positive_square(out);
        let r = (cu.root)(prod(out, out));
        lemma_same_root(r, out);
        let t = (cu.root)(e);
        let thd = prod(t, inverse(out));
        lemma_quotient_undone(t, out);
        lemma_squared_quotient(thd, out, t);
        lemma_quotient_not_negative(thd, out, t);
    }
}

#[verifier::spinoff_prover]
proof fn lemma_squared_quotient(q: real, b: real, a: real)
    requires
        prod(q, b) == a,
    ensures
        prod(prod(q, q), prod(b, b)) == prod(a, a),
{
    reveal(prod);
    assert((q * q) * (b * b) == (q * b) * (q * b)) by (nonlinear_arith);
}

#[verifier::spinoff_prover]
proof fn lemma_quotient_not_negative(q: real, b: real, a: real)
    requires
        prod(q, b) == a,
        b > 0real,
        a >= 0real,
    ensures
        q >= 0real,
{
    reveal(prod);
    assert(q >= 0real) by (nonlinear_arith)
        requires
            q * b == a,
            b > 0real,
            a >= 0real,
    ;
}

/// The distortions of a measurement: the whole is the root of the mean square over the bands, the
/// largest none exceeds, and the share that leaks, times the energy that comes out where that is
/// not faint, is what leaks.
#[verifier::spinoff_prover]
pub proof fn law_distortion_sums_up_bands<A: Arith<Dual>>(
    cu: Curves,
    ops: A,
    mi: Seq<Expr<Dual>>,
    mo: Seq<Expr<Dual>>,
    d: OdeDistortion<Dual>,
    mags: Seq<Dual>,
    order: Seq<Dual>,
    thds: Seq<Dual>,
)
    requires
        exact(cu, ops),
        root_squares(cu),
        harmonics_fit(ops, mi, mo, d, mags, order, thds),
        0 < mi.len() <= usize::MAX,
        mo.len() == mi.len(),
    ensures
        d.thd_total.v >= 0real,
        is_mean(
            prod(d.thd_total.v, d.thd_total.v),
            |k: int| prod(thds[k].v, thds[k].v),
            thds.len() as int,
        ),
        forall|k: int| 0 <= k < thds.len() ==> (#[trigger] thds[k]).v <= d.thd_max_value.v,
        summed(|k: int| prod(value(cu, mo[k]), value(cu, mo[k])), mo.len() as int) >= 1real
            / 100000000real ==> prod(
            d.intermod_ratio.v,
            summed(|k: int| prod(value(cu, mo[k]), value(cu, mo[k])), mo.len() as int),
        ) == value(cu, leak_of(mi, mo, order[mi.len() as int / 2], mi.len() as int)),
{
    broadcast use group_value;

    let n = mi.len() as int;
    let median = order[n / 2];
    let es = thds_of(mi, mo, median);
    lemma_fits_all(cu, ops, es, thds);
    let sq = squares_of(es);
    let whole = over(total_of(sq), Expr::Count(n as usize));
    lemma_fits(cu, ops, un(Unary::Root, whole), d.thd_total);
    lemma_mean_value(cu, sq);
    let given = |k: int| value(cu, sq[k]);
    let wanted = |k: int| prod(thds[k].v, thds[k].v);
    assert forall|k: int| 0 <= k < n implies #[trigger] given(k) == wanted(k) by {
        assert(thds[k].v == value(cu, es[k]));
    }
    lemma_summed_same(given, wanted, n);
    assert forall|k: int| 0 <= k < n implies #[trigger] wanted(k) >= 0real by {
        lemma_square(thds[k].v);
    }
    lemma_mean_not_negative(value(cu, whole), wanted, n);
    law_last_top_is_largest(cu, ops, thds, n, d.thd_max_band as int);
    let out = squares_of(mo);
    lemma_total(cu, out);
    let f = |k: int| value(cu, out[k]);
    let g = |k: int| prod(value(cu, mo[k]), value(cu, mo[k]));
    assert forall|k: int| 0 <= k < n implies #[trigger] f(k) == g(k) by {}
    lemma_summed_same(f, g, n);
    let share = over(leak_of(mi, mo, median, n), larger(total_of(out), least()));
    lemma_fits(cu, ops, share, d.intermod_ratio);
    assert(value(cu, Expr::<Dual>::Ratio(1, 100000000)) == 1real / 100000000real);
    if summed(g, n) >= 1real / 100000000real {
        lemma_quotient_undone(value(cu, leak_of(mi, mo, median, n)), summed(g, n));
    }
}

} // verus!
