//! In exact arithmetic: what reports say of phases, of parity and of gradients.

use vstd::prelude::*;
use crate::arith::Arith;
#[allow(unused_imports)]
use crate::arith::{
    Expr, Test, Unary, angle, fits, fits_all, larger, minus, one, over, plus, test_is, times,
    total_of, val, vals, zero,
};
#[allow(unused_imports)]
use crate::averages::lemma_quotient_undone;
#[allow(unused_imports)]
use crate::coherence::mags_of;
#[allow(unused_imports)]
use crate::exact::{Curves, Dual, holds_of, inverse, prod, value};
#[allow(unused_imports)]
use crate::linear_exact::{lemma_summed_same, summed};
#[allow(unused_imports)]
use crate::loss::{cosine_of, measured_slope, nudge, slope_error};
#[allow(unused_imports)]
use crate::ode_monitor::energies_of;
#[allow(unused_imports)]
use crate::parity::CaseOutcome;
#[allow(unused_imports)]
use crate::parity_cases::{ParityCase, errors_of, outcome_fits};
#[allow(unused_imports)]
use crate::phase_exact::law_extreme_goes_beyond;
#[allow(unused_imports)]
use crate::phase_report::{EnergyProfile, extreme, growth_of, growths_of, place, profile_fits};
#[allow(unused_imports)]
use crate::phase_state::{apart_of, matched, near};
#[allow(unused_imports)]
use crate::relations::{RelationType, catalog_order, orb};
#[allow(unused_imports)]
use crate::structure_exact::energy_in;
#[allow(unused_imports)]
use crate::sub_harmonic::turned;
#[allow(unused_imports)]
use crate::training_exact::size;
#[allow(unused_imports)]
use crate::values::{exact, group_value, lemma_fits, lemma_fits_all, lemma_total, lemma_whole};
#[allow(unused_imports)]
use crate::wave_analysis::{consistencies, pair_bests, span_band, span_of};

verus! {

/// The outcome of a parity case: no band's rates are further off than the error that is told,
/// which is that of the worst band or nothing, and the case is within the tolerance exactly where
/// the error does not exceed it.
#[verifier::spinoff_prover]
pub proof fn law_outcome_tells_the_worst_error<A: Arith<Dual>>(
    cu: Curves,
    ops: A,
    c: ParityCase<Dual>,
    dr: Seq<Dual>,
    ds: Seq<Dual>,
    tolerance: Dual,
    o: CaseOutcome<Dual>,
    k: int,
)
    requires
        exact(cu, ops),
        outcome_fits(ops, c, dr, ds, tolerance, o),
        0 <= k < c.n_bands,
    ensures
        size(dr[k].v - c.expected_dr@[k].v) <= o.max_abs_error.v,
        size(ds[k].v - c.expected_ds@[k].v) <= o.max_abs_error.v,
        o.within <==> o.max_abs_error.v <= tolerance.v,
        o.max_abs_error.v > 0real ==> {
            let w = o.worst_band as int;
            &&& w < c.n_bands
            &&& o.max_abs_error.v == size(dr[w].v - c.expected_dr@[w].v) || o.max_abs_error.v
                == size(ds[w].v - c.expected_ds@[w].v)
        },
{
    broadcast use group_value;

    let n = c.n_bands as int;
    let (errors, start, at) = choose|errors: Seq<Dual>, start: Dual, at: Option<usize>|
        {
            &&& #[trigger] extreme(ops, start, errors, n, true, at, o.max_abs_error)
            &&& fits(ops, zero(), start)
            &&& fits_all(ops, errors_of(c, dr, ds), errors)
            &&& o.worst_band == place(at)
        };
    lemma_fits(cu, ops, zero(), start);
    let es = errors_of(c, dr, ds);
    lemma_fits_all(cu, ops, es, errors);
    law_extreme_goes_beyond(cu, ops, start, errors, n, true, at, o.max_abs_error);
    assert(errors[k].v == value(cu, es[k]));
    assert(o.within == holds_of(Test::AtMost, o.max_abs_error.v, tolerance.v));
    if o.max_abs_error.v > 0real {
        let w = o.worst_band as int;
        assert(at is Some);
        assert(errors[w].v == value(cu, es[w]));
    }
}

/// A slope that is measured: times two ten-thousandths it is the difference of the losses a nudge
/// up and a nudge down.
#[verifier::spinoff_prover]
pub proof fn law_measured_slope_is_a_difference(
    cu: Curves,
    pred: Seq<Expr<Dual>>,
    target: Seq<Expr<Dual>>,
    i: int,
)
    requires
        0 <= i < pred.len(),
    ensures
        ({
            let up = pred.update(i, plus(pred[i], Expr::Ratio(1, 10000)));
            let down = pred.update(i, minus(pred[i], Expr::Ratio(1, 10000)));
            prod(value(cu, measured_slope(pred, target, i)), 2real / 10000real) == value(
                cu,
                cosine_of(up, target),
            ) - value(cu, cosine_of(down, target))
        }),
{
    broadcast use group_value;

    lemma_whole(cu, 2);
    assert(value(cu, Expr::<Dual>::Ratio(1, 10000)) == 1real / 10000real);
    lemma_two_parts(1real / 10000real);
    let up = pred.update(i, plus(pred[i], nudge()));
    let down = pred.update(i, minus(pred[i], nudge()));
    lemma_quotient_undone(
        value(cu, cosine_of(up, target)) - value(cu, cosine_of(down, target)),
        2real / 10000real,
    );
}

#[verifier::spinoff_prover]
proof fn lemma_two_parts(x: real)
    ensures
        prod(2real, x) == 2real * x,
{
    reveal(prod);
}

/// How far a measured slope is from the gradient: the size of the difference, over that of the
/// gradient where that is more than a millionth.
#[verifier::spinoff_prover]
pub proof fn law_slope_error_is_relative(cu: Curves, measured: Expr<Dual>, grad: Expr<Dual>)
    ensures
        ({
            let (m, g) = (value(cu, measured), value(cu, grad));
            let e = value(cu, slope_error(measured, grad));
            if size(g) > 1real / 1000000real {
                prod(e, size(g)) == size(m - g)
            } else {
                e == size(m - g)
            }
        }),
{
    broadcast use group_value;

    let (m, g) = (value(cu, measured), value(cu, grad));
    assert(value(cu, Expr::<Dual>::Ratio(1, 1000000)) == 1real / 1000000real);
    if size(g) > 1real / 1000000real {
        let q = prod(m - g, inverse(g));
        lemma_quotient_undone(m - g, g);
        lemma_sizes(q, g);
    }
}

#[verifier::spinoff_prover]
proof fn lemma_sizes(q: real, g: real)
    ensures
        prod(size(q), size(g)) == size(prod(q, g)),
{
    reveal(prod);
    if q >= 0real && g >= 0real {
        assert(q * g >= 0real) by (nonlinear_arith)
            requires
                q >= 0real,
                g >= 0real,
        ;
    } else if q >= 0real {
        assert(q * g <= 0real && q * (-g) == -(q * g)) by (nonlinear_arith)
            requires
                q >= 0real,
                g <= 0real,
        ;
    } else if g >= 0real {
        assert(q * g <= 0real && (-q) * g == -(q * g)) by (nonlinear_arith)
            requires
                q <= 0real,
                g >= 0real,
        ;
    } else {
        assert(q * g >= 0real && (-q) * (-g) == q * g) by (nonlinear_arith)
            requires
                q <= 0real,
                g <= 0real,
        ;
    }
}

/// An energy profile: the bands' growths, and the whole, which times the energy that went in, where
/// that is not faint, is the energy that came out; no band grew more than the peak or less than the
/// most damped one.
#[verifier::spinoff_prover]
pub proof fn law_profile_compares_energies<A: Arith<Dual>>(
    cu: Curves,
    ops: A,
    x: Seq<Expr<Dual>>,
    y: Seq<Expr<Dual>>,
    n: int,
    top: Dual,
    p: EnergyProfile<Dual>,
    k: int,
)
    requires
        exact(cu, ops),
        profile_fits(ops, x, y, n, top, p),
        0 <= k < n <= usize::MAX,
        2 * n <= x.len(),
        2 * n <= y.len(),
    ensures
        p.deformation@.len() == n,
        p.deformation@[k].v == value(cu, growth_of(mags_of(x, n)[k], mags_of(y, n)[k])),
        p.deformation@[k].v <= p.peak_ratio.v,
        p.deformation@[k].v >= p.damp_ratio.v,
        p.peak_ratio.v > 0real ==> p.peak_ratio == p.deformation@[p.peak_band as int],
        p.damp_ratio.v < top.v ==> p.damp_ratio == p.deformation@[p.damp_band as int],
        ({
            let before = summed(|j: int| energy_in(|i: int| value(cu, x[i]), n, j), n);
            let after = summed(|j: int| energy_in(|i: int| value(cu, y[i]), n, j), n);
            before >= 1real / 100000000real ==> prod(p.total_energy_ratio.v, before) == after
        }),
{
    broadcast use group_value;

    let es = growths_of(x, y, n);
    lemma_fits_all(cu, ops, es, p.deformation@);
    assert(p.deformation@[k].v == value(cu, es[k]));
    let whole = over(
        total_of(energies_of(y, n)),
        larger(total_of(energies_of(x, n)), Expr::Ratio(1, 100000000)),
    );
    lemma_fits(cu, ops, whole, p.total_energy_ratio);
    lemma_energies(cu, x, n);
    lemma_energies(cu, y, n);
    assert(value(cu, Expr::<Dual>::Ratio(1, 100000000)) == 1real / 100000000real);
    let before = summed(|j: int| energy_in(|i: int| value(cu, x[i]), n, j), n);
    let after = summed(|j: int| energy_in(|i: int| value(cu, y[i]), n, j), n);
    if before >= 1real / 100000000real {
        lemma_quotient_undone(after, before);
    }
    let peak = choose|peak: (Dual, Option<usize>)| #[trigger]
        extreme(ops, peak.0, p.deformation@, n, true, peak.1, p.peak_ratio) && fits(
            ops,
            zero(),
            peak.0,
        ) && p.peak_band == place(peak.1);
    lemma_fits(cu, ops, zero(), peak.0);
    law_extreme_goes_beyond(cu, ops, peak.0, p.deformation@, n, true, peak.1, p.peak_ratio);
    let at = choose|at: Option<usize>| #[trigger]
        extreme(ops, top, p.deformation@, n, false, at, p.damp_ratio) && p.damp_band == place(at);
    law_extreme_goes_beyond(cu, ops, top, p.deformation@, n, false, at, p.damp_ratio);
}

#[verifier::spinoff_prover]
proof fn lemma_energies(cu: Curves, x: Seq<Expr<Dual>>, n: int)
    requires
        0 <= n,
    ensures
        value(cu, total_of(energies_of(x, n))) == summed(
            |j: int| energy_in(|i: int| value(cu, x[i]), n, j),
            n,
        ),
{
    broadcast use group_value;

    let es = energies_of(x, n);
    lemma_total(cu, es);
    let given = |k: int| value(cu, es[k]);
    let wanted = |j: int| energy_in(|i: int| value(cu, x[i]), n, j);
    assert forall|k: int| 0 <= k < n implies #[trigger] given(k) == wanted(k) by {}
    lemma_summed_same(given, wanted, n);
}

/// The catalog's entry that an angle is matched with: it lies in the orb of that one, at the
/// distance that is told, and in the orb of none before it; where there is none, it lies in no
/// orb.
#[verifier::spinoff_prover]
pub proof fn law_match_is_the_first_in_reach<A: Arith<Dual>>(
    cu: Curves,
    ops: A,
    deg: Dual,
    folded: bool,
    from: int,
    out: Option<(RelationType, Dual)>,
    j: int,
)
    requires
        exact(cu, ops),
        0 <= from <= j < 11,
        matched(ops, deg, folded, from, out),
    ensures
        ({
            let apart = value(
                cu,
                apart_of(val(deg), catalog_order()[j], folded),
            );
            let reach = orb(catalog_order()[j]) as real;
            &&& out is None ==> apart > reach
            &&& out matches Some(m) ==> {
                ||| apart > reach
                ||| exists|i: int|
                    from <= i <= j && m.0 == #[trigger] catalog_order()[i] && m.1.v == value(
                        cu,
                        apart_of(val(deg), catalog_order()[i], folded),
                    ) && m.1.v <= orb(catalog_order()[i]) as real
            }
        }),
    decreases 11 - from,
{
    broadcast use group_value;

    let rel = catalog_order()[from];
    let (drift, c) = choose|drift: Dual, c: bool|
        {
            &&& #[trigger] near(ops, deg, rel, folded, drift, c)
            &&& if c {
                out == Some((rel, drift))
            } else {
                matched(ops, deg, folded, from + 1, out)
            }
        };
    let limit = choose|limit: Dual| #[trigger]
        test_is(ops, Test::AtMost, drift, limit, c) && fits(
            ops,
            Expr::Ratio(orb(rel) as u64, 1),
            limit,
        ) && fits(ops, apart_of(val(deg), rel, folded), drift);
    lemma_fits(cu, ops, Expr::Ratio(orb(rel) as u64, 1), limit);
    lemma_fits(cu, ops, apart_of(val(deg), rel, folded), drift);
    lemma_whole(cu, orb(rel) as u64);
    assert(c == holds_of(Test::AtMost, drift.v, limit.v));
    if !c && from < j {
        law_match_is_the_first_in_reach(cu, ops, deg, folded, from + 1, out, j);
    }
}

/// How alike two sentences agree in corresponding pairs: what one is left by the size of the
/// difference of the pairs' best agreements.
#[verifier::spinoff_prover]
pub proof fn law_consistency_compares_pairs(
    cu: Curves,
    phases_a: Seq<Vec<Dual>>,
    phases_b: Seq<Vec<Dual>>,
    pairs_a: Seq<(usize, usize)>,
    pairs_b: Seq<(usize, usize)>,
    max_n: int,
    i: int,
)
    requires
        0 <= i < pairs_a.len(),
        i < pairs_b.len(),
    ensures
        value(cu, consistencies(phases_a, phases_b, pairs_a, pairs_b, max_n)[i]) + size(
            value(cu, pair_bests(phases_a, pairs_a, max_n)[i]) - value(
                cu,
                pair_bests(phases_b, pairs_b, max_n)[i],
            ),
        ) == 1real,
{
    broadcast use group_value;

}

/// The direction of a band over a span: the angle of the summed sines and cosines of its phases; of
/// a single position it is the phase there.
#[verifier::spinoff_prover]
pub proof fn law_span_points_where_its_phases_do(
    cu: Curves,
    phases: Seq<Vec<Dual>>,
    positions: Seq<usize>,
    k: int,
)
    requires
        0 <= k < phases[0]@.len(),
        positions.len() == 1 ==> k < phases[positions[0] as int]@.len(),
    ensures
        positions.len() == 1 ==> value(cu, span_of(phases, positions)[k])
            == phases[positions[0] as int]@[k].v,
        positions.len() != 1 ==> value(cu, span_of(phases, positions)[k]) == (cu.angle)(
            summed(
                |i: int| (cu.sin)(phases[positions[i] as int]@[k].v),
                positions.len() as int,
            ),
            summed(
                |i: int| (cu.cos)(phases[positions[i] as int]@[k].v),
                positions.len() as int,
            ),
        ),
{
    broadcast use group_value;

    if positions.len() == 1 {
        let at = positions[0] as int;
        assert(vals(phases[at]@)[k] == val(phases[at]@[k]));
    } else {
        let list = span_band(phases, positions, k);
        let ss = turned(Unary::Sin, list);
        let cs = turned(Unary::Cos, list);
        lemma_total(cu, ss);
        lemma_total(cu, cs);
        let n = positions.len() as int;
        let f = |i: int| value(cu, ss[i]);
        let g = |i: int| (cu.sin)(phases[positions[i] as int]@[k].v);
        assert forall|i: int| 0 <= i < n implies #[trigger] f(i) == g(i) by {}
        lemma_summed_same(f, g, n);
        let p = |i: int| value(cu, cs[i]);
        let q = |i: int| (cu.cos)(phases[positions[i] as int]@[k].v);
        assert forall|i: int| 0 <= i < n implies #[trigger] p(i) == q(i) by {}
        lemma_summed_same(p, q, n);
    }
}

} // verus!
