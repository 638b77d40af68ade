//! In exact arithmetic the integration with a cache is the integration without: their steps are
//! two ways of writing one scheme.

use vstd::prelude::*;
#[allow(unused_imports)]
use crate::arith::{Expr, Unary, over, plus, times, un, val, vals, zero};
#[allow(unused_imports)]
use crate::exact::{
    Curves, Dual, lemma_constants, lemma_minus, lemma_pick, lemma_plus, lemma_times, prod, value,
};
#[allow(unused_imports)]
use crate::kerr::{
    Medium, Waves, ahead, around_of, blend_of, derivative_of, drift_of, dt_of, energies_around,
    energy_of, fall_of, final_of, halfway, medium_of, mixing_of, phi_of, rise_of, step_of, steps_of,
    waves_of,
};
#[allow(unused_imports)]
use crate::linear_exact::{lemma_fold, lemma_summed_same};
#[allow(unused_imports)]
use crate::ode::neighbours_of;
#[allow(unused_imports)]
use crate::ode_backward::{before_step, simpson_of, simpson_step, simpson_steps, slopes_of, two};
#[allow(unused_imports)]
use crate::ode_exact::{lemma_neighbours_exist, lemma_part};
#[allow(unused_imports)]
use crate::split_band::{law_single_band_needs_no_split, split_end};
#[allow(unused_imports)]
use crate::weights::KerrWeights;

verus! {

/// Two states hold the same numbers.
pub open spec fn alike(cu: Curves, y: Waves<Dual>, z: Waves<Dual>, n: int) -> bool {
    &&& y.r.len() == n && y.s.len() == n
    &&& z.r.len() == n && z.s.len() == n
    &&& forall|k: int| 0 <= k < n ==> value(cu, #[trigger] y.r[k]) == value(cu, z.r[k])
    &&& forall|k: int| 0 <= k < n ==> value(cu, #[trigger] y.s[k]) == value(cu, z.s[k])
}

/// Two media that differ in the strength of four-wave mixing alone.
pub open spec fn same_but_mixing(m: Medium<Dual>, q: Medium<Dual>) -> bool {
    m.gamma == q.gamma && m.omega == q.omega && m.alpha == q.alpha && m.beta == q.beta
}

#[verifier::spinoff_prover]
proof fn lemma_energy(
    cu: Curves,
    a: Expr<Dual>,
    b: Expr<Dual>,
    c: Expr<Dual>,
    d: Expr<Dual>,
)
    requires
        value(cu, a) == value(cu, c),
        value(cu, b) == value(cu, d),
    ensures
        value(cu, energy_of(a, b)) == value(cu, energy_of(c, d)),
{
    lemma_times(cu, a, a);
    lemma_times(cu, b, b);
    lemma_times(cu, c, c);
    lemma_times(cu, d, d);
    lemma_plus(cu, times(a, a), times(b, b));
    lemma_plus(cu, times(c, c), times(d, d));
}

/// The energies around a band are the same numbers.
#[verifier::spinoff_prover]
proof fn lemma_around(cu: Curves, y: Waves<Dual>, z: Waves<Dual>, k: int, n: int)
    requires
        alike(cu, y, z, n),
        0 <= k < n <= usize::MAX,
    ensures
        value(cu, around_of(y, k)) == value(cu, around_of(z, k)),
{
    let (a, b) = (energies_around(y, k), energies_around(z, k));
    let js = neighbours_of(k, n);
    lemma_neighbours_exist(k, n);
    lemma_fold(cu, zero(), a);
    lemma_fold(cu, zero(), b);
    let f = |i: int| value(cu, a[i]);
    let g = |i: int| value(cu, b[i]);
    assert forall|i: int| 0 <= i < js.len() implies #[trigger] f(i) == g(i) by {
        let j = js[i] as int;
        assert(0 <= j < n);
        assert(value(cu, y.r[j]) == value(cu, z.r[j]));
        assert(value(cu, y.s[j]) == value(cu, z.s[j]));
        lemma_energy(cu, y.r[j], y.s[j], z.r[j], z.s[j]);
    }
    lemma_summed_same(f, g, js.len() as int);
}

/// The drift of a band is the same numbers.
#[verifier::spinoff_prover]
proof fn lemma_band_drift(
    cu: Curves,
    m: Medium<Dual>,
    q: Medium<Dual>,
    y: Waves<Dual>,
    z: Waves<Dual>,
    k: int,
    n: int,
)
    requires
        alike(cu, y, z, n),
        same_but_mixing(m, q),
        0 <= k < n <= usize::MAX,
    ensures
        value(cu, drift_of(m, y).r[k]) == value(cu, drift_of(q, z).r[k]),
        value(cu, drift_of(m, y).s[k]) == value(cu, drift_of(q, z).s[k]),
{
    lemma_around(cu, y, z, k, n);
    let (a, b, c, d) = (y.r[k], y.s[k], z.r[k], z.s[k]);
    lemma_energy(cu, a, b, c, d);
    let (e, f) = (energy_of(a, b), energy_of(c, d));
    let (u, v) = (around_of(y, k), around_of(z, k));
    lemma_times(cu, m.alpha, e);
    lemma_times(cu, m.alpha, f);
    lemma_times(cu, m.beta, u);
    lemma_times(cu, m.beta, v);
    lemma_plus(cu, m.omega[k], times(m.alpha, e));
    lemma_plus(cu, m.omega[k], times(m.alpha, f));
    lemma_plus(cu, plus(m.omega[k], times(m.alpha, e)), times(m.beta, u));
    lemma_plus(cu, plus(m.omega[k], times(m.alpha, f)), times(m.beta, v));
    let (s, t) = (phi_of(m, y, k), phi_of(q, z, k));
    assert(value(cu, s) == value(cu, t));
    let loss = un(Unary::Negated, m.gamma[k]);
    lemma_times(cu, loss, a);
    lemma_times(cu, loss, b);
    lemma_times(cu, loss, c);
    lemma_times(cu, loss, d);
    lemma_times(cu, s, a);
    lemma_times(cu, s, b);
    lemma_times(cu, t, c);
    lemma_times(cu, t, d);
    lemma_minus(cu, times(loss, a), times(s, b));
    lemma_minus(cu, times(loss, c), times(t, d));
    lemma_plus(cu, times(loss, b), times(s, a));
    lemma_plus(cu, times(loss, d), times(t, c));
    assert(drift_of(m, y).r[k] == fall_of(m.gamma[k], a, s, b));
    assert(drift_of(q, z).r[k] == fall_of(m.gamma[k], c, t, d));
    assert(drift_of(m, y).s[k] == rise_of(m.gamma[k], b, s, a));
    assert(drift_of(q, z).s[k] == rise_of(m.gamma[k], d, t, c));
}

/// Where nothing is mixed, the derivative is the drift.
pub open spec fn unmixed(cu: Curves, m: Medium<Dual>, n: int) -> bool {
    n <= 4 || value(cu, m.chi) == 0real
}

#[verifier::spinoff_prover]
proof fn lemma_derivative(
    cu: Curves,
    m: Medium<Dual>,
    q: Medium<Dual>,
    y: Waves<Dual>,
    z: Waves<Dual>,
    n: int,
)
    requires
        alike(cu, y, z, n),
        same_but_mixing(m, q),
        unmixed(cu, m, n),
        n <= usize::MAX,
    ensures
        alike(cu, derivative_of(m, y), drift_of(q, z), n),
{
    let d = derivative_of(m, y);
    lemma_constants(cu);
    assert forall|k: int| 0 <= k < n implies value(cu, #[trigger] d.r[k]) == value(
        cu,
        drift_of(q, z).r[k],
    ) by {
        lemma_band_drift(cu, m, q, y, z, k, n);
        let x = mixing_of(m, y);
        lemma_pick(cu, m.chi, zero(), drift_of(m, y).r[k], x.r[k]);
    }
    assert forall|k: int| 0 <= k < n implies value(cu, #[trigger] d.s[k]) == value(
        cu,
        drift_of(q, z).s[k],
    ) by {
        lemma_band_drift(cu, m, q, y, z, k, n);
        let x = mixing_of(m, y);
        lemma_pick(cu, m.chi, zero(), drift_of(m, y).s[k], x.s[k]);
    }
}

/// States moved along the same slopes are the same numbers.
#[verifier::spinoff_prover]
proof fn lemma_moved(
    cu: Curves,
    y: Waves<Dual>,
    z: Waves<Dual>,
    dt: Expr<Dual>,
    a: Waves<Dual>,
    b: Waves<Dual>,
    n: int,
)
    requires
        alike(cu, y, z, n),
        alike(cu, a, b, n),
    ensures
        alike(cu, halfway(y, dt, a), halfway(z, dt, b), n),
        alike(cu, ahead(y, dt, a), ahead(z, dt, b), n),
{
    let half = times(Expr::Ratio(1, 2), dt);
    let (hy, hz) = (halfway(y, dt, a), halfway(z, dt, b));
    let (ay, az) = (ahead(y, dt, a), ahead(z, dt, b));
    assert forall|k: int| 0 <= k < n implies value(cu, #[trigger] hy.r[k]) == value(cu, hz.r[k]) by {
        lemma_along(cu, y.r[k], z.r[k], half, a.r[k], b.r[k]);
    }
    assert forall|k: int| 0 <= k < n implies value(cu, #[trigger] hy.s[k]) == value(cu, hz.s[k]) by {
        lemma_along(cu, y.s[k], z.s[k], half, a.s[k], b.s[k]);
    }
    assert forall|k: int| 0 <= k < n implies value(cu, #[trigger] ay.r[k]) == value(cu, az.r[k]) by {
        lemma_along(cu, y.r[k], z.r[k], dt, a.r[k], b.r[k]);
    }
    assert forall|k: int| 0 <= k < n implies value(cu, #[trigger] ay.s[k]) == value(cu, az.s[k]) by {
        lemma_along(cu, y.s[k], z.s[k], dt, a.s[k], b.s[k]);
    }
}

#[verifier::spinoff_prover]
proof fn lemma_along(
    cu: Curves,
    x: Expr<Dual>,
    y: Expr<Dual>,
    t: Expr<Dual>,
    a: Expr<Dual>,
    b: Expr<Dual>,
)
    requires
        value(cu, x) == value(cu, y),
        value(cu, a) == value(cu, b),
    ensures
        value(cu, plus(x, times(t, a))) == value(cu, plus(y, times(t, b))),
{
    lemma_times(cu, t, a);
    lemma_times(cu, t, b);
    lemma_plus(cu, x, times(t, a));
    lemma_plus(cu, y, times(t, b));
}

/// The weights of Simpson's rule.
pub open spec fn simpson_weights(cu: Curves, w: Seq<Expr<Dual>>) -> bool {
    &&& w.len() == 4
    &&& value(cu, w[0]) == 1real / 6real
    &&& value(cu, w[1]) == 1real / 3real
    &&& value(cu, w[2]) == 1real / 3real
    &&& value(cu, w[3]) == 1real / 6real
}

#[verifier::spinoff_prover]
proof fn lemma_sixths(h: real, a: real, b: real, c: real, d: real)
    ensures
        prod(
            h,
            prod(1real / 6real, a) + prod(1real / 3real, b) + prod(1real / 3real, c) + prod(
                1real / 6real,
                d,
            ),
        ) == prod(h / 6real, a + prod(2real, b) + prod(2real, c) + d),
{
    reveal(prod);
    let t = (1real / 6real) * a + (1real / 3real) * b + (1real / 3real) * c + (1real / 6real) * d;
    let u = a + 2real * b + 2real * c + d;
    assert(6real * t == u);
    assert(h * t == (h / 6real) * u) by (nonlinear_arith)
        requires
            6real * t == u,
    ;
}

/// A blend of slopes by the weights of Simpson's rule.
#[verifier::spinoff_prover]
proof fn lemma_blend(
    cu: Curves,
    x: Expr<Dual>,
    dt: Expr<Dual>,
    w: Seq<Expr<Dual>>,
    a: Expr<Dual>,
    b: Expr<Dual>,
    c: Expr<Dual>,
    d: Expr<Dual>,
)
    requires
        simpson_weights(cu, w),
    ensures
        value(cu, blend_of(seq![x], dt, w, seq![a], seq![b], seq![c], seq![d])[0]) == value(
            cu,
            simpson_of(seq![x], dt, seq![a], seq![b], seq![c], seq![d])[0],
        ),
{
    lemma_constants(cu);
    lemma_times(cu, w[0], a);
    lemma_times(cu, w[1], b);
    lemma_times(cu, w[2], c);
    lemma_times(cu, w[3], d);
    let p = plus(times(w[0], a), times(w[1], b));
    let q = plus(p, times(w[2], c));
    let r = plus(q, times(w[3], d));
    lemma_plus(cu, times(w[0], a), times(w[1], b));
    lemma_plus(cu, p, times(w[2], c));
    lemma_plus(cu, q, times(w[3], d));
    lemma_times(cu, dt, r);
    lemma_plus(cu, x, times(dt, r));
    lemma_times(cu, two(), b);
    lemma_times(cu, two(), c);
    let e = plus(a, times(two(), b));
    let f = plus(e, times(two(), c));
    let g = plus(f, d);
    lemma_plus(cu, a, times(two(), b));
    lemma_plus(cu, e, times(two(), c));
    lemma_plus(cu, f, d);
    let sixth = over(dt, Expr::Ratio(6, 1));
    lemma_part(cu, dt);
    lemma_times(cu, sixth, g);
    lemma_plus(cu, x, times(sixth, g));
    lemma_sixths(value(cu, dt), value(cu, a), value(cu, b), value(cu, c), value(cu, d));
}

/// Four slopes, blended or put together, of the same numbers.
#[verifier::spinoff_prover]
proof fn lemma_simpson_alike(
    cu: Curves,
    x: Expr<Dual>,
    y: Expr<Dual>,
    dt: Expr<Dual>,
    a: Expr<Dual>,
    b: Expr<Dual>,
    c: Expr<Dual>,
    d: Expr<Dual>,
    e: Expr<Dual>,
    f: Expr<Dual>,
    g: Expr<Dual>,
    h: Expr<Dual>,
)
    requires
        value(cu, x) == value(cu, y),
        value(cu, a) == value(cu, e),
        value(cu, b) == value(cu, f),
        value(cu, c) == value(cu, g),
        value(cu, d) == value(cu, h),
    ensures
        value(cu, simpson_of(seq![x], dt, seq![a], seq![b], seq![c], seq![d])[0]) == value(
            cu,
            simpson_of(seq![y], dt, seq![e], seq![f], seq![g], seq![h])[0],
        ),
{
    let t = two::<Dual>();
    let sixth = over(dt, Expr::Ratio(6, 1));
    lemma_times(cu, t, b);
    lemma_times(cu, t, f);
    lemma_times(cu, t, c);
    lemma_times(cu, t, g);
    let (p, q) = (plus(a, times(t, b)), plus(e, times(t, f)));
    lemma_plus(cu, a, times(t, b));
    lemma_plus(cu, e, times(t, f));
    lemma_plus(cu, p, times(t, c));
    lemma_plus(cu, q, times(t, g));
    let (u, v) = (plus(p, times(t, c)), plus(q, times(t, g)));
    lemma_plus(cu, u, d);
    lemma_plus(cu, v, h);
    lemma_along(cu, x, y, sixth, plus(u, d), plus(v, h));
}

/// A step with the weights of Simpson's rule, and a step of the integration with a cache.
#[verifier::spinoff_prover]
proof fn lemma_step(
    cu: Curves,
    m: Medium<Dual>,
    q: Medium<Dual>,
    dt: Expr<Dual>,
    w: Seq<Expr<Dual>>,
    y: Waves<Dual>,
    z: Waves<Dual>,
    n: int,
)
    requires
        alike(cu, y, z, n),
        same_but_mixing(m, q),
        unmixed(cu, m, n),
        simpson_weights(cu, w),
        n <= usize::MAX,
    ensures
        alike(cu, step_of(m, dt, w, y), simpson_step(q, dt, z), n),
{
    let k1 = derivative_of(m, y);
    let k2 = derivative_of(m, halfway(y, dt, k1));
    let k3 = derivative_of(m, halfway(y, dt, k2));
    let k4 = derivative_of(m, ahead(y, dt, k3));
    let k = slopes_of(q, dt, z);
    lemma_derivative(cu, m, q, y, z, n);
    lemma_moved(cu, y, z, dt, k1, k.k1, n);
    lemma_derivative(cu, m, q, halfway(y, dt, k1), halfway(z, dt, k.k1), n);
    lemma_moved(cu, y, z, dt, k2, k.k2, n);
    lemma_derivative(cu, m, q, halfway(y, dt, k2), halfway(z, dt, k.k2), n);
    lemma_moved(cu, y, z, dt, k3, k.k3, n);
    lemma_derivative(cu, m, q, ahead(y, dt, k3), ahead(z, dt, k.k3), n);
    let (a, b) = (step_of(m, dt, w, y), simpson_step(q, dt, z));
    assert forall|i: int| 0 <= i < n implies value(cu, #[trigger] a.r[i]) == value(cu, b.r[i]) by {
        lemma_blend(cu, y.r[i], dt, w, k1.r[i], k2.r[i], k3.r[i], k4.r[i]);
        lemma_simpson_alike(
            cu,
            y.r[i],
            z.r[i],
            dt,
            k1.r[i],
            k2.r[i],
            k3.r[i],
            k4.r[i],
            k.k1.r[i],
            k.k2.r[i],
            k.k3.r[i],
            k.k4.r[i],
        );
    }
    assert forall|i: int| 0 <= i < n implies value(cu, #[trigger] a.s[i]) == value(cu, b.s[i]) by {
        lemma_blend(cu, y.s[i], dt, w, k1.s[i], k2.s[i], k3.s[i], k4.s[i]);
        lemma_simpson_alike(
            cu,
            y.s[i],
            z.s[i],
            dt,
            k1.s[i],
            k2.s[i],
            k3.s[i],
            k4.s[i],
            k.k1.s[i],
            k.k2.s[i],
            k.k3.s[i],
            k.k4.s[i],
        );
    }
}

#[verifier::spinoff_prover]
proof fn lemma_steps(
    cu: Curves,
    m: Medium<Dual>,
    q: Medium<Dual>,
    dt: Expr<Dual>,
    w: Seq<Expr<Dual>>,
    z: Waves<Dual>,
    n: int,
    steps: int,
)
    requires
        z.r.len() == n && z.s.len() == n,
        same_but_mixing(m, q),
        unmixed(cu, m, n),
        simpson_weights(cu, w),
        n <= usize::MAX,
    ensures
        alike(cu, steps_of(m, dt, w, z, steps), simpson_steps(q, dt, z, steps), n),
    decreases steps,
{
    if steps > 0 {
        lemma_steps(cu, m, q, dt, w, z, n, steps - 1);
        lemma_step(
            cu,
            m,
            q,
            dt,
            w,
            steps_of(m, dt, w, z, steps - 1),
            simpson_steps(q, dt, z, steps - 1),
            n,
        );
    }
}

/// The integration that keeps a cache ends where the plain one does: in exact arithmetic, where
/// nothing is mixed and the four slopes are weighed by Simpson's rule.
#[verifier::spinoff_prover]
pub proof fn law_cached_integration_is_the_plain_one(
    cu: Curves,
    w: KerrWeights<Dual>,
    x: Seq<Dual>,
)
    requires
        w.gamma_raw@.len() <= usize::MAX,
        simpson_weights(cu, vals(w.rk4_weights@)),
        unmixed(cu, medium_of(w, val(w.chi)), w.gamma_raw@.len() as int),
    ensures
        alike(
            cu,
            final_of(w, val(w.chi), vals(x), None),
            before_step(w, x, w.rk4_n_steps as int),
            w.gamma_raw@.len() as int,
        ),
{
    let n = w.gamma_raw@.len() as int;
    lemma_steps(
        cu,
        medium_of(w, val(w.chi)),
        medium_of(w, zero()),
        dt_of(w),
        vals(w.rk4_weights@),
        waves_of(vals(x), n),
        n,
        w.rk4_n_steps as int,
    );
}

/// With a single band the split integration ends where the one that keeps a cache of all bands
/// does: in exact arithmetic, where the four slopes are weighed by Simpson's rule.
#[verifier::spinoff_prover]
pub proof fn law_single_band_split_is_the_cached_integration(
    cu: Curves,
    w: KerrWeights<Dual>,
    x: Seq<Dual>,
)
    requires
        w.gamma_raw@.len() == 1,
        simpson_weights(cu, vals(w.rk4_weights@)),
    ensures
        alike(cu, split_end(w, x), before_step(w, x, w.rk4_n_steps as int), 1),
{
    law_single_band_needs_no_split(w, x);
    law_cached_integration_is_the_plain_one(cu, w, x);
}

} // verus!
