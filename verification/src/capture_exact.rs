//! In exact arithmetic the captured shares of a derivative add up to it.

use vstd::prelude::*;
#[allow(unused_imports)]
use crate::arith::{Expr, Unary, plus, times, un, zero};
#[allow(unused_imports)]
use crate::exact::{
    Curves, Dual, lemma_minus, lemma_negated, lemma_pick, lemma_plus, lemma_sign, lemma_times,
    value,
};
#[allow(unused_imports)]
use crate::kerr::{
    Medium, Waves, cross_minus, cross_plus, derivative_of, drift_of, fall_of, gained, lost,
    mixed_of, phi_of, rise_of,
};
#[allow(unused_imports)]
use crate::kerr_capture::{damped, drained, mixed_in, phis_of, rotated, traded, traded_upto};
#[allow(unused_imports)]
use crate::ode::{Quartet, law_quartets_are_matched, quartets_of};

verus! {

/// A gain and a drain add the same whatever they are added to.
#[verifier::spinoff_prover]
proof fn lemma_changes(cu: Curves, x: Expr<Dual>, y: Expr<Dual>, chi: Expr<Dual>, g: Expr<Dual>)
    ensures
        value(cu, gained(x, chi, g)) - value(cu, x) == value(cu, gained(y, chi, g)) - value(cu, y),
        value(cu, drained(x, chi, g)) - value(cu, x) == value(cu, drained(y, chi, g)) - value(
            cu,
            y,
        ),
{
    let f = times(chi, g);
    lemma_plus(cu, x, f);
    lemma_plus(cu, y, f);
    lemma_plus(cu, x, un(Unary::Negated, f));
    lemma_plus(cu, y, un(Unary::Negated, f));
}

/// An exchange adds the same whatever it is added to.
#[verifier::spinoff_prover]
proof fn lemma_traded(
    cu: Curves,
    chi: Expr<Dual>,
    z: Waves<Dual>,
    d: Waves<Dual>,
    e: Waves<Dual>,
    q: Quartet,
    k: int,
)
    requires
        d.r.len() == e.r.len(),
        d.s.len() == e.r.len(),
        e.s.len() == e.r.len(),
        q.a < q.c < q.d < q.b < d.r.len(),
        0 <= k < d.r.len(),
    ensures
        value(cu, traded(chi, z, d, q).r[k]) - value(cu, d.r[k]) == value(
            cu,
            traded(chi, z, e, q).r[k],
        ) - value(cu, e.r[k]),
        value(cu, traded(chi, z, d, q).s[k]) - value(cu, d.s[k]) == value(
            cu,
            traded(chi, z, e, q).s[k],
        ) - value(cu, e.s[k]),
        traded(chi, z, d, q).r.len() == d.r.len(),
        traded(chi, z, d, q).s.len() == d.s.len(),
        traded(chi, z, e, q).r.len() == e.r.len(),
        traded(chi, z, e, q).s.len() == e.s.len(),
{
    let (ra, sa) = (z.r[q.a as int], z.s[q.a as int]);
    let (rb, sb) = (z.r[q.b as int], z.s[q.b as int]);
    let (rc, sc) = (z.r[q.c as int], z.s[q.c as int]);
    let (rd, sd) = (z.r[q.d as int], z.s[q.d as int]);
    let ab_re = cross_minus(ra, rb, sa, sb);
    let ab_im = cross_plus(ra, sb, sa, rb);
    let cd_re = cross_minus(rc, rd, sc, sd);
    let cd_im = cross_plus(rc, sd, sc, rd);
    let (x, y) = (d.r[k], e.r[k]);
    let (u, v) = (d.s[k], e.s[k]);
    if k == q.d {
        lemma_changes(cu, x, y, chi, cross_minus(ab_im, rc, ab_re, sc));
        lemma_changes(cu, u, v, chi, cross_plus(ab_re, rc, ab_im, sc));
    } else if k == q.c {
        lemma_changes(cu, x, y, chi, cross_minus(ab_im, rd, ab_re, sd));
        lemma_changes(cu, u, v, chi, cross_plus(ab_re, rd, ab_im, sd));
    } else if k == q.b {
        lemma_changes(cu, x, y, chi, cross_minus(ra, cd_im, sa, cd_re));
        lemma_changes(cu, u, v, chi, cross_plus(ra, cd_re, sa, cd_im));
    } else if k == q.a {
        lemma_changes(cu, x, y, chi, cross_minus(rb, cd_im, sb, cd_re));
        lemma_changes(cu, u, v, chi, cross_plus(rb, cd_re, sb, cd_im));
    }
}

/// The exchanges of the first `n` quartets add the same whatever they are added to.
#[verifier::spinoff_prover]
proof fn lemma_traded_upto(
    cu: Curves,
    chi: Expr<Dual>,
    z: Waves<Dual>,
    d: Waves<Dual>,
    e: Waves<Dual>,
    qs: Seq<Quartet>,
    n: int,
    k: int,
)
    requires
        d.r.len() == e.r.len(),
        d.s.len() == e.r.len(),
        e.s.len() == e.r.len(),
        forall|i: int|
            0 <= i < n ==> (#[trigger] qs[i]).a < qs[i].c < qs[i].d < qs[i].b < d.r.len(),
        0 <= k < d.r.len(),
    ensures
        ({
            let (x, y) = (traded_upto(chi, z, d, qs, n), traded_upto(chi, z, e, qs, n));
            &&& x.r.len() == d.r.len() && x.s.len() == d.s.len()
            &&& y.r.len() == d.r.len() && y.s.len() == d.s.len()
            &&& value(cu, x.r[k]) - value(cu, d.r[k]) == value(cu, y.r[k]) - value(cu, e.r[k])
            &&& value(cu, x.s[k]) - value(cu, d.s[k]) == value(cu, y.s[k]) - value(cu, e.s[k])
        }),
    decreases n,
{
    if n > 0 {
        lemma_traded_upto(cu, chi, z, d, e, qs, n - 1, k);
        lemma_traded(
            cu,
            chi,
            z,
            traded_upto(chi, z, d, qs, n - 1),
            traded_upto(chi, z, e, qs, n - 1),
            qs[n - 1],
            k,
        );
    }
}

/// Four-wave mixing adds the same whatever it is added to.
#[verifier::spinoff_prover]
proof fn lemma_mixed(
    cu: Curves,
    m: Medium<Dual>,
    z: Waves<Dual>,
    d: Waves<Dual>,
    e: Waves<Dual>,
    k: int,
)
    requires
        d.r.len() == z.r.len() && d.s.len() == z.r.len(),
        e.r.len() == z.r.len() && e.s.len() == z.r.len(),
        z.r.len() <= usize::MAX,
        0 <= k < z.r.len(),
    ensures
        ({
            let (x, y) = (mixed_in(m, z, d), mixed_in(m, z, e));
            &&& value(cu, x.r[k]) - value(cu, d.r[k]) == value(cu, y.r[k]) - value(cu, e.r[k])
            &&& value(cu, x.s[k]) - value(cu, d.s[k]) == value(cu, y.s[k]) - value(cu, e.s[k])
        }),
{
    if z.r.len() > 4 {
        let qs = quartets_of(z.r.len() as int);
        let n = qs.len() as int;
        let (x, y) = (traded_upto(m.chi, z, d, qs, n), traded_upto(m.chi, z, e, qs, n));
        assert forall|i: int| 0 <= i < n implies (#[trigger] qs[i]).a < qs[i].c < qs[i].d < qs[i].b
            < d.r.len() by {
            law_quartets_are_matched(z.r.len() as usize, i);
        }
        lemma_traded_upto(cu, m.chi, z, d, e, qs, n, k);
        lemma_pick(cu, m.chi, zero(), d.r[k], x.r[k]);
        lemma_pick(cu, m.chi, zero(), d.s[k], x.s[k]);
        lemma_pick(cu, m.chi, zero(), e.r[k], y.r[k]);
        lemma_pick(cu, m.chi, zero(), e.s[k], y.s[k]);
    }
}

/// A slope changes alike whether a loss is taken off or its opposite added.
#[verifier::spinoff_prover]
proof fn lemma_taken(cu: Curves, x: Expr<Dual>, y: Expr<Dual>, chi: Expr<Dual>, g: Expr<Dual>)
    requires
        value(cu, x) == value(cu, y),
    ensures
        value(cu, gained(x, chi, g)) == value(cu, gained(y, chi, g)),
        value(cu, lost(x, chi, g)) == value(cu, drained(y, chi, g)),
{
    let f = times(chi, g);
    lemma_plus(cu, x, f);
    lemma_plus(cu, y, f);
    lemma_minus(cu, x, f);
    lemma_negated(cu, f);
    lemma_plus(cu, y, un(Unary::Negated, f));
}

/// The exchanges of the first `n` quartets, with losses taken off or their opposites added.
#[verifier::spinoff_prover]
proof fn lemma_exchanges(
    cu: Curves,
    chi: Expr<Dual>,
    z: Waves<Dual>,
    d: Waves<Dual>,
    qs: Seq<Quartet>,
    n: int,
    k: int,
)
    requires
        d.s.len() == d.r.len(),
        forall|i: int|
            0 <= i < n ==> (#[trigger] qs[i]).a < qs[i].c < qs[i].d < qs[i].b < d.r.len(),
        0 <= k < d.r.len(),
    ensures
        ({
            let (x, y) = (mixed_of(chi, z, d, qs, n), traded_upto(chi, z, d, qs, n));
            &&& x.r.len() == d.r.len() && x.s.len() == d.r.len()
            &&& y.r.len() == d.r.len() && y.s.len() == d.r.len()
            &&& value(cu, x.r[k]) == value(cu, y.r[k])
            &&& value(cu, x.s[k]) == value(cu, y.s[k])
        }),
    decreases n,
{
    if n > 0 {
        lemma_exchanges(cu, chi, z, d, qs, n - 1, k);
        let (x, y) = (mixed_of(chi, z, d, qs, n - 1), traded_upto(chi, z, d, qs, n - 1));
        let q = qs[n - 1];
        let (ra, sa) = (z.r[q.a as int], z.s[q.a as int]);
        let (rb, sb) = (z.r[q.b as int], z.s[q.b as int]);
        let (rc, sc) = (z.r[q.c as int], z.s[q.c as int]);
        let (rd, sd) = (z.r[q.d as int], z.s[q.d as int]);
        let ab_re = cross_minus(ra, rb, sa, sb);
        let ab_im = cross_plus(ra, sb, sa, rb);
        let cd_re = cross_minus(rc, rd, sc, sd);
        let cd_im = cross_plus(rc, sd, sc, rd);
        if k == q.d {
            lemma_taken(cu, x.r[k], y.r[k], chi, cross_minus(ab_im, rc, ab_re, sc));
            lemma_taken(cu, x.s[k], y.s[k], chi, cross_plus(ab_re, rc, ab_im, sc));
        } else if k == q.c {
            lemma_taken(cu, x.r[k], y.r[k], chi, cross_minus(ab_im, rd, ab_re, sd));
            lemma_taken(cu, x.s[k], y.s[k], chi, cross_plus(ab_re, rd, ab_im, sd));
        } else if k == q.b {
            lemma_taken(cu, x.r[k], y.r[k], chi, cross_minus(ra, cd_im, sa, cd_re));
            lemma_taken(cu, x.s[k], y.s[k], chi, cross_plus(ra, cd_re, sa, cd_im));
        } else if k == q.a {
            lemma_taken(cu, x.r[k], y.r[k], chi, cross_minus(rb, cd_im, sb, cd_re));
            lemma_taken(cu, x.s[k], y.s[k], chi, cross_plus(rb, cd_re, sb, cd_im));
        }
    }
}

/// The derivative that is captured is the derivative, in exact arithmetic.
#[verifier::spinoff_prover]
pub proof fn law_captured_derivative_is_the_derivative(
    cu: Curves,
    m: Medium<Dual>,
    z: Waves<Dual>,
    k: int,
)
    requires
        z.r.len() == z.s.len(),
        z.r.len() <= usize::MAX,
        0 <= k < z.r.len(),
    ensures
        value(cu, mixed_in(m, z, drift_of(m, z)).r[k]) == value(cu, derivative_of(m, z).r[k]),
        value(cu, mixed_in(m, z, drift_of(m, z)).s[k]) == value(cu, derivative_of(m, z).s[k]),
{
    let d = drift_of(m, z);
    if z.r.len() > 4 {
        let qs = quartets_of(z.r.len() as int);
        let n = qs.len() as int;
        assert forall|i: int| 0 <= i < n implies (#[trigger] qs[i]).a < qs[i].c < qs[i].d < qs[i].b
            < d.r.len() by {
            law_quartets_are_matched(z.r.len() as usize, i);
        }
        lemma_exchanges(cu, m.chi, z, d, qs, n, k);
        let (x, y) = (mixed_of(m.chi, z, d, qs, n), traded_upto(m.chi, z, d, qs, n));
        lemma_pick(cu, m.chi, zero(), d.r[k], x.r[k]);
        lemma_pick(cu, m.chi, zero(), d.s[k], x.s[k]);
        lemma_pick(cu, m.chi, zero(), d.r[k], y.r[k]);
        lemma_pick(cu, m.chi, zero(), d.s[k], y.s[k]);
    }
}

/// The captured shares add up to the derivative: in exact arithmetic, what a capture adds to the
/// shares of damping, turning and four-wave mixing is together the derivative of each band.
#[verifier::spinoff_prover]
pub proof fn law_captured_shares_add_up(
    cu: Curves,
    m: Medium<Dual>,
    z: Waves<Dual>,
    damping: Waves<Dual>,
    phase: Waves<Dual>,
    fwm: Waves<Dual>,
    k: int,
)
    requires
        z.r.len() == z.s.len(),
        z.r.len() <= usize::MAX,
        damping.r.len() == z.r.len() && damping.s.len() == z.r.len(),
        phase.r.len() == z.r.len() && phase.s.len() == z.r.len(),
        fwm.r.len() == z.r.len() && fwm.s.len() == z.r.len(),
        0 <= k < z.r.len(),
    ensures
        ({
            let d = derivative_of(m, z);
            let after = (damped(m, z, damping), rotated(m, z, phase), mixed_in(m, z, fwm));
            &&& value(cu, d.r[k]) == (value(cu, after.0.r[k]) - value(cu, damping.r[k])) + (value(
                cu,
                after.1.r[k],
            ) - value(cu, phase.r[k])) + (value(cu, after.2.r[k]) - value(cu, fwm.r[k]))
            &&& value(cu, d.s[k]) == (value(cu, after.0.s[k]) - value(cu, damping.s[k])) + (value(
                cu,
                after.1.s[k],
            ) - value(cu, phase.s[k])) + (value(cu, after.2.s[k]) - value(cu, fwm.s[k]))
        }),
{
    law_captured_derivative_is_the_derivative(cu, m, z, k);
    lemma_mixed(cu, m, z, drift_of(m, z), fwm, k);
    let (r, s) = (z.r[k], z.s[k]);
    let loss = un(Unary::Negated, m.gamma[k]);
    let phi = phi_of(m, z, k);
    let turn = un(Unary::Negated, phi);
    // The drift.
    lemma_negated(cu, m.gamma[k]);
    lemma_negated(cu, phi);
    lemma_times(cu, loss, r);
    lemma_times(cu, loss, s);
    lemma_times(cu, phi, s);
    lemma_times(cu, phi, r);
    lemma_times(cu, turn, s);
    lemma_minus(cu, times(loss, r), times(phi, s));
    lemma_plus(cu, times(loss, s), times(phi, r));
    lemma_sign(value(cu, phi), value(cu, s));
    assert(drift_of(m, z).r[k] == fall_of(m.gamma[k], r, phi, s));
    assert(drift_of(m, z).s[k] == rise_of(m.gamma[k], s, phi, r));
    // The shares.
    lemma_plus(cu, damping.r[k], times(loss, r));
    lemma_plus(cu, damping.s[k], times(loss, s));
    lemma_plus(cu, phase.r[k], times(turn, s));
    lemma_plus(cu, phase.s[k], times(phi, r));
    assert(damped(m, z, damping).r[k] == plus(damping.r[k], times(loss, r)));
    assert(damped(m, z, damping).s[k] == plus(damping.s[k], times(loss, s)));
    assert(phis_of(m, z)[k] == phi);
    assert(rotated(m, z, phase).r[k] == plus(phase.r[k], times(turn, s)));
    assert(rotated(m, z, phase).s[k] == plus(phase.s[k], times(phi, r)));
}

} // verus!
