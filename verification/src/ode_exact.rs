//! In exact arithmetic the gradients of an integration are those of its derivative.

use vstd::prelude::*;
#[allow(unused_imports)]
use crate::arith::{Expr, Unary, minus, over, plus, times, un, val, vals, zero};
#[allow(unused_imports)]
use crate::exact::{
    Curves, Dual, dual_of, group_dual, inverse, lemma_constants, lemma_double, lemma_negated,
    lemma_nothing, lemma_over, lemma_plus, lemma_shared, lemma_shared_three, lemma_sign,
    lemma_slope_back, lemma_three, lemma_times, paired_params, paired_wave, prod, rate, still,
    value, wave_back,
};
#[allow(unused_imports)]
use crate::kerr::{
    Medium, Waves, ahead, around_of, drift_of, energies_around, energy_of, halfway, phi_of,
    waves_of,
};
#[allow(unused_imports)]
use crate::layers::sums_of;
#[allow(unused_imports)]
use crate::ode::neighbours_of;
#[allow(unused_imports)]
use crate::ode_backward::{
    Back, OdeForwardCache, Slopes, band_back, cache_shaped, cached_medium, cached_slopes,
    cached_state, carried_of, drift_back, end_back, entries_shaped, fresh_of, grown,
    half_carried_of, joined_of, minus_twice, near_back, nears_back, ode_back, own_back, share_of,
    simpson_of, step_back, steps_back, twice, two,
};
#[allow(unused_imports)]
use crate::split_band::{BandBack, band_of, band_slope, band_slope_back, wave_at, zeros_of};
#[allow(unused_imports)]
use crate::split_exact::{
    change_alike, energy_rates, lemma_energy_rates, lemma_no_numbers, lemma_state_gain,
    paired_numbers, paired_state,
};
#[allow(unused_imports)]
use crate::weights::KerrWeights;

verus! {

/// The components' gradients.
pub open spec fn waves_back(b: Back<Dual>) -> Waves<Dual> {
    Waves { r: b.d_r, s: b.d_s }
}

/// What the gradients of the parameters amount to along the direction.
#[verifier::opaque]
pub open spec fn paired_medium(cu: Curves, b: Back<Dual>, m: Medium<Dual>, n: int) -> real {
    paired_numbers(cu, b.d_gamma, m.gamma, n) + prod(value(cu, b.d_alpha), rate(cu, m.alpha)) + prod(
        value(cu, b.d_beta),
        rate(cu, m.beta),
    )
}

/// What all gradients amount to along the direction.
pub open spec fn paired_back(
    cu: Curves,
    b: Back<Dual>,
    m: Medium<Dual>,
    z: Waves<Dual>,
    n: int,
) -> real {
    paired_state(cu, waves_back(b), z, n) + paired_medium(cu, b, m, n)
}

/// Gradients of `n` bands.
pub open spec fn back_covers(b: Back<Dual>, n: int) -> bool {
    &&& b.d_r.len() == n
    &&& b.d_s.len() == n
    &&& b.d_gamma.len() == n
}

#[verifier::spinoff_prover]
proof fn lemma_numbers_gain(
    cu: Curves,
    d: Seq<Expr<Dual>>,
    x: Seq<Expr<Dual>>,
    j: int,
    y: Expr<Dual>,
    n: int,
)
    requires
        0 <= j < d.len(),
        0 <= n <= d.len(),
    ensures
        paired_numbers(cu, grown(d, j, y), x, n) == paired_numbers(cu, d, x, n) + (if j < n {
            prod(value(cu, y), rate(cu, x[j]))
        } else {
            0real
        }),
    decreases n,
{
    if n > 0 {
        lemma_numbers_gain(cu, d, x, j, y, n - 1);
        if n - 1 == j {
            assert(grown(d, j, y)[j] == plus(d[j], y));
            broadcast use group_dual;

            lemma_shared(rate(cu, x[j]), value(cu, d[j]), value(cu, y));
        } else {
            assert(grown(d, j, y)[n - 1] == d[n - 1]);
        }
    }
}

/// What a band's turn passes on to a neighbour, out of the gradient of the energy around it.
#[verifier::spinoff_prover]
proof fn lemma_near(x: real, y: real, b: real, q: real, r: real, s: real)
    ensures
        prod(x, prod(prod(prod(-2real, b), q), s)) + prod(y, prod(prod(prod(2real, b), q), r))
            == prod(prod(prod(x, prod(-b, s)) + prod(y, prod(b, r)), 2real), q),
{
    lemma_near_part(x, -b, q, s);
    lemma_near_part(y, b, q, r);
    lemma_sign(2real, b);
    let (u, v) = (prod(x, prod(-b, s)), prod(y, prod(b, r)));
    lemma_shared(2real, u, v);
    lemma_shared(q, prod(u, 2real), prod(v, 2real));
}

#[verifier::spinoff_prover]
proof fn lemma_near_part(x: real, b: real, q: real, s: real)
    ensures
        prod(x, prod(prod(prod(2real, b), q), s)) == prod(prod(prod(x, prod(b, s)), 2real), q),
{
    reveal(prod);
    assert(x * (((2real * b) * q) * s) == ((x * (b * s)) * 2real) * q) by (nonlinear_arith);
}

/// The gradient of the energy around band `k`, out of those of its slopes.
pub open spec fn around_grad(
    cu: Curves,
    m: Medium<Dual>,
    z: Waves<Dual>,
    d: Waves<Dual>,
    k: int,
) -> real {
    prod(value(cu, d.r[k]), prod(-value(cu, m.beta), value(cu, z.s[k]))) + prod(
        value(cu, d.s[k]),
        prod(value(cu, m.beta), value(cu, z.r[k])),
    )
}

#[verifier::spinoff_prover]
proof fn lemma_near_back(
    cu: Curves,
    m: Medium<Dual>,
    z: Waves<Dual>,
    d: Waves<Dual>,
    b: Back<Dual>,
    k: int,
    j: int,
    n: int,
)
    requires
        0 <= j < n,
        back_covers(b, n),
    ensures
        back_covers(near_back(m, z, d, b, k, j), n),
        paired_state(cu, waves_back(near_back(m, z, d, b, k, j)), z, n) == paired_state(
            cu,
            waves_back(b),
            z,
            n,
        ) + prod(around_grad(cu, m, z, d, k), rate(cu, energy_of(z.r[j], z.s[j]))),
{
    let x1 = times(d.r[k], minus_twice(m.beta, z.r[j], z.s[k]));
    let x2 = times(d.s[k], twice(m.beta, z.r[j], z.r[k]));
    let y1 = times(d.r[k], minus_twice(m.beta, z.s[j], z.s[k]));
    let y2 = times(d.s[k], twice(m.beta, z.s[j], z.r[k]));
    let e = Waves { r: grown(b.d_r, j, x1), s: grown(b.d_s, j, y1) };
    lemma_state_gain(cu, waves_back(b), z, j, x1, y1, n);
    lemma_state_gain(cu, e, z, j, x2, y2, n);
    let (x, y, be) = (value(cu, d.r[k]), value(cu, d.s[k]), value(cu, m.beta));
    let (r, s) = (value(cu, z.r[k]), value(cu, z.s[k]));
    let (qr, qs) = (value(cu, z.r[j]), value(cu, z.s[j]));
    let g = around_grad(cu, m, z, d, k);
    let (dr, ds) = (rate(cu, z.r[j]), rate(cu, z.s[j]));
    let u = prod(dr, qr) + prod(qr, dr);
    let v = prod(ds, qs) + prod(qs, ds);
    assert(value(cu, x1) == prod(x, prod(prod(prod(-2real, be), qr), s)) && value(cu, x2) == prod(
        y,
        prod(prod(prod(2real, be), qr), r),
    ) && value(cu, y1) == prod(x, prod(prod(prod(-2real, be), qs), s)) && value(cu, y2) == prod(
        y,
        prod(prod(prod(2real, be), qs), r),
    ) && rate(cu, energy_of(z.r[j], z.s[j])) == u + v) by {
        lemma_constants(cu);
        broadcast use group_dual;

    }
    lemma_near(x, y, be, qr, r, s);
    lemma_near(x, y, be, qs, r, s);
    lemma_shared(dr, value(cu, x1), value(cu, x2));
    lemma_shared(ds, value(cu, y1), value(cu, y2));
    lemma_double(g, qr, dr);
    lemma_double(g, qs, ds);
    lemma_shared(g, u, v);
}

#[verifier::spinoff_prover]
proof fn lemma_nears_back(
    cu: Curves,
    m: Medium<Dual>,
    z: Waves<Dual>,
    d: Waves<Dual>,
    b: Back<Dual>,
    k: int,
    js: Seq<usize>,
    i: int,
    n: int,
)
    requires
        0 <= i <= js.len(),
        forall|l: int| 0 <= l < js.len() ==> #[trigger] js[l] < n,
        back_covers(b, n),
    ensures
        ({
            let out = nears_back(m, z, d, b, k, js, i);
            &&& back_covers(out, n)
            &&& out.d_gamma == b.d_gamma && out.d_alpha == b.d_alpha && out.d_beta == b.d_beta
            &&& paired_state(cu, waves_back(out), z, n) == paired_state(cu, waves_back(b), z, n) + prod(
                around_grad(cu, m, z, d, k),
                energy_rates(cu, z, js, i),
            )
        }),
    decreases i,
{
    let g = around_grad(cu, m, z, d, k);
    lemma_nothing(g);
    if i > 0 {
        lemma_nears_back(cu, m, z, d, b, k, js, i - 1, n);
        let j = js[i - 1] as int;
        lemma_near_back(cu, m, z, d, nears_back(m, z, d, b, k, js, i - 1), k, j, n);
        lemma_shared(g, energy_rates(cu, z, js, i - 1), rate(cu, energy_of(z.r[j], z.s[j])));
    }
}

/// One band of the gradients, none of them of the energy around it.
pub open spec fn alone_at(b: Back<Dual>, k: int) -> BandBack<Dual> {
    BandBack {
        d_r: b.d_r[k],
        d_s: b.d_s[k],
        d_gamma: b.d_gamma[k],
        d_ns: zero(),
        d_alpha: b.d_alpha,
        d_beta: b.d_beta,
        d_w: Seq::empty(),
    }
}

/// What the way back through one band's slopes adds to its components' gradients.
#[verifier::spinoff_prover]
proof fn lemma_own_back(
    cu: Curves,
    m: Medium<Dual>,
    z: Waves<Dual>,
    d: Waves<Dual>,
    b: Back<Dual>,
    k: int,
    n: int,
)
    requires
        0 <= k < n,
        back_covers(b, n),
    ensures
        ({
            let out = own_back(m, z, d, b, k);
            let zk = wave_at(z, k);
            let bb = alone_at(b, k);
            let ob = band_slope_back(band_of(m, k, around_of(z, k)), zk, wave_at(d, k), bb);
            &&& back_covers(out, n)
            &&& out.d_gamma == b.d_gamma && out.d_alpha == b.d_alpha && out.d_beta == b.d_beta
            &&& paired_state(cu, waves_back(out), z, n) == paired_state(cu, waves_back(b), z, n)
                + paired_wave(cu, wave_back(ob), zk) - paired_wave(cu, wave_back(bb), zk)
        }),
{
    let zk = wave_at(z, k);
    let bb = alone_at(b, k);
    let bm = band_of(m, k, around_of(z, k));
    let ob = band_slope_back(bm, zk, wave_at(d, k), bb);
    let (r, s) = (z.r[k], z.s[k]);
    let phi = phi_of(m, z, k);
    let x1 = times(
        d.r[k],
        minus(un(Unary::Negated, m.gamma[k]), twice(m.alpha, r, s)),
    );
    let x2 = times(d.s[k], plus(phi, twice(m.alpha, r, r)));
    let y1 = times(
        d.r[k],
        minus(un(Unary::Negated, phi), twice(m.alpha, s, s)),
    );
    let y2 = times(d.s[k], plus(un(Unary::Negated, m.gamma[k]), twice(m.alpha, r, s)));
    let e = Waves { r: grown(b.d_r, k, x1), s: grown(b.d_s, k, y1) };
    lemma_state_gain(cu, waves_back(b), z, k, x1, y1, n);
    lemma_state_gain(cu, e, z, k, x2, y2, n);
    assert(ob.d_r == plus(plus(b.d_r[k], x1), x2));
    assert(ob.d_s == plus(plus(b.d_s[k], y1), y2));
    assert(value(cu, ob.d_r) == value(cu, b.d_r[k]) + value(cu, x1) + value(cu, x2) && value(cu, ob.d_s) == value(
        cu,
        b.d_s[k],
    ) + value(cu, y1) + value(cu, y2)) by {
        broadcast use lemma_plus;

    }
    lemma_shared_three(value(cu, b.d_r[k]), value(cu, x1), value(cu, x2), rate(cu, r));
    lemma_shared_three(value(cu, b.d_s[k]), value(cu, y1), value(cu, y2), rate(cu, s));
    reveal(paired_wave);
}

#[verifier::spinoff_prover]
proof fn lemma_around_rate(cu: Curves, z: Waves<Dual>, k: int)
    ensures
        ({
            let js = neighbours_of(k, z.r.len() as int);
            rate(cu, around_of(z, k)) == energy_rates(cu, z, js, js.len() as int)
        }),
{
    let js = neighbours_of(k, z.r.len() as int);
    lemma_energy_rates(cu, z, js, js.len() as int);
    let es = energies_around(z, k);
    assert(es =~= js.map_values(|j: usize| energy_of(z.r[j as int], z.s[j as int])));
    assert(es.take(js.len() as int) =~= es);
}

/// What the way back through one band's slopes adds to the parameters' gradients.
#[verifier::spinoff_prover]
proof fn lemma_medium_gain(
    cu: Curves,
    m: Medium<Dual>,
    b: Back<Dual>,
    out: Back<Dual>,
    ns: Expr<Dual>,
    ob: BandBack<Dual>,
    k: int,
    damping: Expr<Dual>,
    n: int,
)
    requires
        0 <= k < n,
        b.d_gamma.len() == n,
        out.d_gamma == grown(b.d_gamma, k, damping),
        out.d_alpha == ob.d_alpha,
        out.d_beta == ob.d_beta,
        value(cu, ob.d_gamma) == value(cu, b.d_gamma[k]) + value(cu, damping),
    ensures
        paired_medium(cu, out, m, n) + prod(value(cu, ob.d_ns), rate(cu, ns)) == paired_medium(cu, b, m, n)
            + paired_params(cu, ob, band_of(m, k, ns)) - paired_params(
            cu,
            alone_at(b, k),
            band_of(m, k, ns),
        ),
{
    lemma_numbers_gain(cu, b.d_gamma, m.gamma, k, damping, n);
    lemma_shared(rate(cu, m.gamma[k]), value(cu, b.d_gamma[k]), value(cu, damping));
    lemma_constants(cu);
    lemma_nothing(rate(cu, ns));
    reveal(paired_medium);
    reveal(paired_params);
}

/// The gradients of a band's damping and of the energy around it.
#[verifier::spinoff_prover]
proof fn lemma_band_grads(
    cu: Curves,
    m: Medium<Dual>,
    z: Waves<Dual>,
    d: Waves<Dual>,
    b: Back<Dual>,
    k: int,
    damping: Expr<Dual>,
)
    requires
        damping == plus(
            times(d.r[k], un(Unary::Negated, z.r[k])),
            times(d.s[k], un(Unary::Negated, z.s[k])),
        ),
    ensures
        ({
            let bm = band_of(m, k, around_of(z, k));
            let ob = band_slope_back(bm, wave_at(z, k), wave_at(d, k), alone_at(b, k));
            &&& value(cu, ob.d_gamma) == value(cu, b.d_gamma[k]) + value(cu, damping)
            &&& value(cu, ob.d_ns) == around_grad(cu, m, z, d, k)
        }),
{
    let bm = band_of(m, k, around_of(z, k));
    let ob = band_slope_back(bm, wave_at(z, k), wave_at(d, k), alone_at(b, k));
    lemma_plus(cu, b.d_gamma[k], damping);
    let x = times(d.r[k], times(un(Unary::Negated, m.beta), z.s[k]));
    let y = times(d.s[k], times(m.beta, z.r[k]));
    assert(ob.d_ns == plus(zero(), plus(x, y)));
    lemma_constants(cu);
    lemma_plus(cu, zero(), plus(x, y));
    lemma_plus(cu, x, y);
    lemma_times(cu, d.r[k], times(un(Unary::Negated, m.beta), z.s[k]));
    lemma_times(cu, un(Unary::Negated, m.beta), z.s[k]);
    lemma_negated(cu, m.beta);
    lemma_times(cu, d.s[k], times(m.beta, z.r[k]));
    lemma_times(cu, m.beta, z.r[k]);
}

/// The parts of the way back through one band's slopes.
#[verifier::spinoff_prover]
proof fn lemma_band_parts(m: Medium<Dual>, z: Waves<Dual>, d: Waves<Dual>, b: Back<Dual>, k: int)
    requires
        0 <= k < b.d_gamma.len(),
    ensures
        ({
            let js = neighbours_of(k, z.r.len() as int);
            let own = own_back(m, z, d, b, k);
            let near = nears_back(m, z, d, own, k, js, js.len() as int);
            let out = band_back(m, z, d, b, k);
            let bm = band_of(m, k, around_of(z, k));
            let ob = band_slope_back(bm, wave_at(z, k), wave_at(d, k), alone_at(b, k));
            &&& out.d_r == near.d_r
            &&& out.d_s == near.d_s
            &&& near.d_gamma == b.d_gamma && near.d_alpha == b.d_alpha && near.d_beta == b.d_beta
                ==> out.d_gamma == grown(
                b.d_gamma,
                k,
                plus(
                    times(d.r[k], un(Unary::Negated, z.r[k])),
                    times(d.s[k], un(Unary::Negated, z.s[k])),
                ),
            ) && out.d_alpha == ob.d_alpha && out.d_beta == ob.d_beta
        }),
{
}

#[verifier::spinoff_prover]
proof fn lemma_band_slope(m: Medium<Dual>, z: Waves<Dual>, k: int)
    requires
        0 <= k < z.r.len(),
    ensures
        band_slope(band_of(m, k, around_of(z, k)), wave_at(z, k)) == wave_at(drift_of(m, z), k),
{
}

#[verifier::spinoff_prover]
pub proof fn lemma_neighbours_exist(k: int, n: int)
    requires
        0 <= k < n <= usize::MAX,
    ensures
        forall|l: int| 0 <= l < neighbours_of(k, n).len() ==> #[trigger] neighbours_of(k, n)[l] < n,
{
}

/// The way back through the slopes of one band is transposed to their derivative.
#[verifier::spinoff_prover]
proof fn lemma_band_back(
    cu: Curves,
    m: Medium<Dual>,
    z: Waves<Dual>,
    d: Waves<Dual>,
    b: Back<Dual>,
    k: int,
    n: int,
)
    requires
        0 <= k < n,
        n == z.r.len(),
        n <= usize::MAX,
        back_covers(b, n),
        rate(cu, m.omega[k]) == 0real,
    ensures
        back_covers(band_back(m, z, d, b, k), n),
        paired_back(cu, band_back(m, z, d, b, k), m, z, n) == paired_back(cu, b, m, z, n) + paired_wave(
            cu,
            wave_at(d, k),
            wave_at(drift_of(m, z), k),
        ),
{
    let js = neighbours_of(k, n);
    let ns = around_of(z, k);
    let bm = band_of(m, k, ns);
    let (zk, g, bb) = (wave_at(z, k), wave_at(d, k), alone_at(b, k));
    let ob = band_slope_back(bm, zk, g, bb);
    let own = own_back(m, z, d, b, k);
    let near = nears_back(m, z, d, own, k, js, js.len() as int);
    let out = band_back(m, z, d, b, k);
    let damping = plus(
        times(d.r[k], un(Unary::Negated, z.r[k])),
        times(d.s[k], un(Unary::Negated, z.s[k])),
    );
    lemma_neighbours_exist(k, n);
    lemma_own_back(cu, m, z, d, b, k, n);
    lemma_nears_back(cu, m, z, d, own, k, js, js.len() as int, n);
    lemma_band_parts(m, z, d, b, k);
    lemma_band_grads(cu, m, z, d, b, k, damping);
    lemma_medium_gain(cu, m, b, out, ns, ob, k, damping, n);
    lemma_around_rate(cu, z, k);
    lemma_band_slope(m, z, k);
    lemma_slope_back(cu, bm, zk, g, bb);
}

#[verifier::spinoff_prover]
proof fn lemma_drift_back(
    cu: Curves,
    m: Medium<Dual>,
    z: Waves<Dual>,
    d: Waves<Dual>,
    b: Back<Dual>,
    i: int,
    n: int,
)
    requires
        0 <= i <= n,
        n == z.r.len(),
        n <= usize::MAX,
        back_covers(b, n),
        forall|k: int| 0 <= k < n ==> rate(cu, #[trigger] m.omega[k]) == 0real,
    ensures
        back_covers(drift_back(m, z, d, b, i), n),
        paired_back(cu, drift_back(m, z, d, b, i), m, z, n) == paired_back(cu, b, m, z, n) + paired_state(
            cu,
            d,
            drift_of(m, z),
            i,
        ),
    decreases i,
{
    if i > 0 {
        lemma_drift_back(cu, m, z, d, b, i - 1, n);
        assert(rate(cu, m.omega[i - 1]) == 0real);
        lemma_band_back(cu, m, z, d, drift_back(m, z, d, b, i - 1), i - 1, n);
    }
}

#[verifier::spinoff_prover]
proof fn lemma_quotients(a: real)
    ensures
        prod(a, inverse(3real)) == a / 3real,
        prod(a, inverse(6real)) == a / 6real,
{
    reveal(prod);
    reveal(inverse);
    assert(a * (1real / 3real) == a / 3real) by (nonlinear_arith);
    assert(a * (1real / 6real) == a / 6real) by (nonlinear_arith);
}

#[verifier::spinoff_prover]
proof fn lemma_divisors(cu: Curves)
    ensures
        dual_of(cu, Expr::Ratio(3, 1)) == still(3real),
        dual_of(cu, Expr::Ratio(6, 1)) == still(6real),
{
    reveal(dual_of);
    assert(value(cu, Expr::Ratio(3, 1)) == 3u64 as real / 1u64 as real);
    assert(value(cu, Expr::Ratio(6, 1)) == 6u64 as real / 1u64 as real);
}

/// A third and a sixth of a number.
#[verifier::spinoff_prover]
pub proof fn lemma_part(cu: Curves, x: Expr<Dual>)
    ensures
        value(cu, over(x, Expr::Ratio(3, 1))) == value(cu, x) / 3real,
        value(cu, over(x, Expr::Ratio(6, 1))) == value(cu, x) / 6real,
        rate(cu, x) == 0real ==> rate(cu, over(x, Expr::Ratio(6, 1))) == 0real,
{
    let (third, sixth): (Expr<Dual>, Expr<Dual>) = (Expr::Ratio(3, 1), Expr::Ratio(6, 1));
    lemma_divisors(cu);
    lemma_over(cu, x, third);
    lemma_over(cu, x, sixth);
    lemma_quotients(value(cu, x));
    lemma_nothing(6real);
    lemma_nothing(value(cu, x));
    lemma_nothing(inverse(prod(6real, 6real)));
}

/// Gradients of which each is `t` times another.
#[verifier::spinoff_prover]
proof fn lemma_scaled_state(
    cu: Curves,
    e: Waves<Dual>,
    d: Waves<Dual>,
    z: Waves<Dual>,
    t: real,
    n: int,
)
    requires
        forall|k: int|
            0 <= k < n ==> value(cu, #[trigger] e.r[k]) == prod(t, value(cu, d.r[k])) && value(cu, e.s[k])
                == prod(t, value(cu, d.s[k])),
    ensures
        paired_state(cu, e, z, n) == prod(t, paired_state(cu, d, z, n)),
    decreases n,
{
    lemma_nothing(t);
    if n > 0 {
        let k = n - 1;
        lemma_scaled_state(cu, e, d, z, t, k);
        assert(value(cu, e.r[k]) == prod(t, value(cu, d.r[k])));
        let (u, v) = (
            prod(value(cu, d.r[k]), rate(cu, z.r[k])),
            prod(value(cu, d.s[k]), rate(cu, z.s[k])),
        );
        lemma_three(t, value(cu, d.r[k]), rate(cu, z.r[k]));
        lemma_three(t, value(cu, d.s[k]), rate(cu, z.s[k]));
        lemma_shared(t, u, v);
        lemma_shared(t, paired_state(cu, d, z, k), u + v);
        reveal(paired_wave);
    }
}

/// Gradients of which each is the sum of two others.
#[verifier::spinoff_prover]
proof fn lemma_summed_state(
    cu: Curves,
    e: Waves<Dual>,
    a: Waves<Dual>,
    b: Waves<Dual>,
    z: Waves<Dual>,
    n: int,
)
    requires
        forall|k: int|
            0 <= k < n ==> value(cu, #[trigger] e.r[k]) == value(cu, a.r[k]) + value(cu, b.r[k]) && value(
                cu,
                e.s[k],
            ) == value(cu, a.s[k]) + value(cu, b.s[k]),
    ensures
        paired_state(cu, e, z, n) == paired_state(cu, a, z, n) + paired_state(cu, b, z, n),
    decreases n,
{
    if n > 0 {
        let k = n - 1;
        lemma_summed_state(cu, e, a, b, z, k);
        assert(value(cu, e.r[k]) == value(cu, a.r[k]) + value(cu, b.r[k]));
        lemma_shared(rate(cu, z.r[k]), value(cu, a.r[k]), value(cu, b.r[k]));
        lemma_shared(rate(cu, z.s[k]), value(cu, a.s[k]), value(cu, b.s[k]));
        reveal(paired_wave);
    }
}

/// A state that lies `t` times some slopes ahead of another.
#[verifier::spinoff_prover]
proof fn lemma_moved_state(
    cu: Curves,
    d: Waves<Dual>,
    y: Waves<Dual>,
    z: Waves<Dual>,
    x: Waves<Dual>,
    t: real,
    n: int,
)
    requires
        forall|k: int|
            0 <= k < n ==> rate(cu, #[trigger] y.r[k]) == rate(cu, z.r[k]) + prod(t, rate(cu, x.r[k])) && rate(
                cu,
                y.s[k],
            ) == rate(cu, z.s[k]) + prod(t, rate(cu, x.s[k])),
    ensures
        paired_state(cu, d, y, n) == paired_state(cu, d, z, n) + prod(t, paired_state(cu, d, x, n)),
    decreases n,
{
    lemma_nothing(t);
    if n > 0 {
        let k = n - 1;
        lemma_moved_state(cu, d, y, z, x, t, k);
        assert(rate(cu, y.r[k]) == rate(cu, z.r[k]) + prod(t, rate(cu, x.r[k])));
        let (p, q) = (value(cu, d.r[k]), value(cu, d.s[k]));
        let (u, v) = (prod(p, rate(cu, x.r[k])), prod(q, rate(cu, x.s[k])));
        lemma_shared(p, rate(cu, z.r[k]), prod(t, rate(cu, x.r[k])));
        lemma_shared(q, rate(cu, z.s[k]), prod(t, rate(cu, x.s[k])));
        lemma_three(p, t, rate(cu, x.r[k]));
        lemma_three(q, t, rate(cu, x.s[k]));
        lemma_shared(t, u, v);
        lemma_shared(t, paired_state(cu, d, x, k), u + v);
        reveal(paired_wave);
    }
}

#[verifier::spinoff_prover]
proof fn lemma_alike_state(cu: Curves, d: Waves<Dual>, y: Waves<Dual>, z: Waves<Dual>, n: int)
    requires
        change_alike(cu, y, z, n),
    ensures
        paired_state(cu, d, y, n) == paired_state(cu, d, z, n),
    decreases n,
{
    if n > 0 {
        lemma_alike_state(cu, d, y, z, n - 1);
        assert(rate(cu, y.r[n - 1]) == rate(cu, z.r[n - 1]));
        reveal(paired_wave);
    }
}

#[verifier::spinoff_prover]
proof fn lemma_fractions(h: real, v: real)
    ensures
        prod(v, h) / 6real == prod(h / 6real, v),
        prod(v, h) / 3real == prod(h / 3real, v),
        prod(h / 3real, v) == prod(h / 6real, prod(2real, v)),
{
    reveal(prod);
    assert((v * h) / 6real == (h / 6real) * v) by (nonlinear_arith);
    assert((v * h) / 3real == (h / 3real) * v) by (nonlinear_arith);
    assert((h / 3real) * v == (h / 6real) * (2real * v)) by (nonlinear_arith);
}

#[verifier::spinoff_prover]
proof fn lemma_halves(h: real, v: real)
    ensures
        prod(prod(v, 1real / 2real), h) == prod(h / 2real, v),
        prod(1real / 2real, h) == h / 2real,
        prod(1real, v) == v,
{
    reveal(prod);
    assert((v * (1real / 2real)) * h == (h / 2real) * v) by (nonlinear_arith);
    assert((1real / 2real) * h == h / 2real) by (nonlinear_arith);
    assert(1real * v == v) by (nonlinear_arith);
}

/// Shares of some gradients.
pub open spec fn shares(d: Waves<Dual>, dt: Expr<Dual>, q: u64) -> Waves<Dual> {
    Waves { r: share_of(d.r, dt, q), s: share_of(d.s, dt, q) }
}

#[verifier::spinoff_prover]
proof fn lemma_shares(cu: Curves, d: Waves<Dual>, dt: Expr<Dual>, z: Waves<Dual>, n: int)
    requires
        n <= d.r.len(),
        d.r.len() == d.s.len(),
    ensures
        paired_state(cu, shares(d, dt, 6), z, n) == prod(value(cu, dt) / 6real, paired_state(cu, d, z, n)),
        paired_state(cu, shares(d, dt, 3), z, n) == prod(value(cu, dt) / 3real, paired_state(cu, d, z, n)),
{
    let h = value(cu, dt);
    assert forall|k: int| 0 <= k < n implies value(cu, #[trigger] shares(d, dt, 6).r[k]) == prod(
        h / 6real,
        value(cu, d.r[k]),
    ) && value(cu, shares(d, dt, 6).s[k]) == prod(h / 6real, value(cu, d.s[k])) by {
        lemma_part(cu, times(d.r[k], dt));
        lemma_part(cu, times(d.s[k], dt));
        lemma_times(cu, d.r[k], dt);
        lemma_times(cu, d.s[k], dt);
        lemma_fractions(h, value(cu, d.r[k]));
        lemma_fractions(h, value(cu, d.s[k]));
    }
    lemma_scaled_state(cu, shares(d, dt, 6), d, z, h / 6real, n);
    assert forall|k: int| 0 <= k < n implies value(cu, #[trigger] shares(d, dt, 3).r[k]) == prod(
        h / 3real,
        value(cu, d.r[k]),
    ) && value(cu, shares(d, dt, 3).s[k]) == prod(h / 3real, value(cu, d.s[k])) by {
        lemma_part(cu, times(d.r[k], dt));
        lemma_part(cu, times(d.s[k], dt));
        lemma_times(cu, d.r[k], dt);
        lemma_times(cu, d.s[k], dt);
        lemma_fractions(h, value(cu, d.r[k]));
        lemma_fractions(h, value(cu, d.s[k]));
    }
    lemma_scaled_state(cu, shares(d, dt, 3), d, z, h / 3real, n);
}

/// Gradients carried over a step.
pub open spec fn carried(d: Waves<Dual>, dt: Expr<Dual>) -> Waves<Dual> {
    Waves { r: carried_of(d.r, dt), s: carried_of(d.s, dt) }
}

/// Gradients carried over half a step.
pub open spec fn half_carried(d: Waves<Dual>, dt: Expr<Dual>) -> Waves<Dual> {
    Waves { r: half_carried_of(d.r, dt), s: half_carried_of(d.s, dt) }
}

#[verifier::spinoff_prover]
proof fn lemma_carried(cu: Curves, d: Waves<Dual>, dt: Expr<Dual>, z: Waves<Dual>, n: int)
    requires
        n <= d.r.len(),
        d.r.len() == d.s.len(),
    ensures
        paired_state(cu, carried(d, dt), z, n) == prod(value(cu, dt), paired_state(cu, d, z, n)),
        paired_state(cu, half_carried(d, dt), z, n) == prod(
            value(cu, dt) / 2real,
            paired_state(cu, d, z, n),
        ),
{
    let h = value(cu, dt);
    assert forall|k: int| 0 <= k < n implies value(cu, #[trigger] carried(d, dt).r[k]) == prod(
        h,
        value(cu, d.r[k]),
    ) && value(cu, carried(d, dt).s[k]) == prod(h, value(cu, d.s[k])) by {
        lemma_times(cu, d.r[k], dt);
        lemma_times(cu, d.s[k], dt);
        lemma_sign(h, value(cu, d.r[k]));
        lemma_sign(h, value(cu, d.s[k]));
    }
    lemma_scaled_state(cu, carried(d, dt), d, z, h, n);
    let half: Expr<Dual> = Expr::Ratio(1, 2);
    lemma_constants(cu);
    assert forall|k: int| 0 <= k < n implies value(cu, #[trigger] half_carried(d, dt).r[k]) == prod(
        h / 2real,
        value(cu, d.r[k]),
    ) && value(cu, half_carried(d, dt).s[k]) == prod(h / 2real, value(cu, d.s[k])) by {
        lemma_times(cu, d.r[k], half);
        lemma_times(cu, d.s[k], half);
        lemma_times(cu, times(d.r[k], half), dt);
        lemma_times(cu, times(d.s[k], half), dt);
        lemma_halves(h, value(cu, d.r[k]));
        lemma_halves(h, value(cu, d.s[k]));
    }
    lemma_scaled_state(cu, half_carried(d, dt), d, z, h / 2real, n);
}

/// Sums of some gradients.
pub open spec fn sums(a: Waves<Dual>, b: Waves<Dual>) -> Waves<Dual> {
    Waves { r: sums_of(a.r, b.r), s: sums_of(a.s, b.s) }
}

#[verifier::spinoff_prover]
proof fn lemma_sums(cu: Curves, a: Waves<Dual>, b: Waves<Dual>, z: Waves<Dual>, n: int)
    requires
        n <= a.r.len(),
        a.r.len() == a.s.len(),
    ensures
        paired_state(cu, sums(a, b), z, n) == paired_state(cu, a, z, n) + paired_state(cu, b, z, n),
{
    assert forall|k: int| 0 <= k < n implies value(cu, #[trigger] sums(a, b).r[k]) == value(cu, a.r[k])
        + value(cu, b.r[k]) && value(cu, sums(a, b).s[k]) == value(cu, a.s[k]) + value(cu, b.s[k]) by {
        lemma_plus(cu, a.r[k], b.r[k]);
        lemma_plus(cu, a.s[k], b.s[k]);
    }
    lemma_summed_state(cu, sums(a, b), a, b, z, n);
}

/// A product with a number that stands still.
#[verifier::spinoff_prover]
proof fn lemma_still_times(cu: Curves, t: Expr<Dual>, x: Expr<Dual>)
    requires
        rate(cu, t) == 0real,
    ensures
        rate(cu, times(t, x)) == prod(value(cu, t), rate(cu, x)),
{
    lemma_times(cu, t, x);
    lemma_nothing(value(cu, x));
}

#[verifier::spinoff_prover]
proof fn lemma_ahead(
    cu: Curves,
    d: Waves<Dual>,
    z: Waves<Dual>,
    dt: Expr<Dual>,
    x: Waves<Dual>,
    n: int,
)
    requires
        n <= z.r.len(),
        z.r.len() == z.s.len(),
        rate(cu, dt) == 0real,
    ensures
        paired_state(cu, d, ahead(z, dt, x), n) == paired_state(cu, d, z, n) + prod(
            value(cu, dt),
            paired_state(cu, d, x, n),
        ),
{
    let y = ahead(z, dt, x);
    let h = value(cu, dt);
    assert forall|k: int| 0 <= k < n implies rate(cu, #[trigger] y.r[k]) == rate(cu, z.r[k]) + prod(
        h,
        rate(cu, x.r[k]),
    ) && rate(cu, y.s[k]) == rate(cu, z.s[k]) + prod(h, rate(cu, x.s[k])) by {
        lemma_plus(cu, z.r[k], times(dt, x.r[k]));
        lemma_plus(cu, z.s[k], times(dt, x.s[k]));
        lemma_still_times(cu, dt, x.r[k]);
        lemma_still_times(cu, dt, x.s[k]);
    }
    lemma_moved_state(cu, d, y, z, x, h, n);
}

#[verifier::spinoff_prover]
proof fn lemma_halfway(
    cu: Curves,
    d: Waves<Dual>,
    z: Waves<Dual>,
    dt: Expr<Dual>,
    x: Waves<Dual>,
    n: int,
)
    requires
        n <= z.r.len(),
        z.r.len() == z.s.len(),
        rate(cu, dt) == 0real,
    ensures
        paired_state(cu, d, halfway(z, dt, x), n) == paired_state(cu, d, z, n) + prod(
            value(cu, dt) / 2real,
            paired_state(cu, d, x, n),
        ),
{
    let y = halfway(z, dt, x);
    let half: Expr<Dual> = Expr::Ratio(1, 2);
    let t = times(half, dt);
    let h = value(cu, dt);
    lemma_constants(cu);
    lemma_times(cu, half, dt);
    lemma_nothing(h);
    lemma_nothing(1real / 2real);
    lemma_halves(h, h);
    assert forall|k: int| 0 <= k < n implies rate(cu, #[trigger] y.r[k]) == rate(cu, z.r[k]) + prod(
        h / 2real,
        rate(cu, x.r[k]),
    ) && rate(cu, y.s[k]) == rate(cu, z.s[k]) + prod(h / 2real, rate(cu, x.s[k])) by {
        lemma_plus(cu, z.r[k], times(t, x.r[k]));
        lemma_plus(cu, z.s[k], times(t, x.s[k]));
        lemma_still_times(cu, t, x.r[k]);
        lemma_still_times(cu, t, x.s[k]);
    }
    lemma_moved_state(cu, d, y, z, x, h / 2real, n);
}

/// The state after a step along four slopes.
pub open spec fn simpson_next(z: Waves<Dual>, dt: Expr<Dual>, k: Slopes<Dual>) -> Waves<Dual> {
    Waves {
        r: simpson_of(z.r, dt, k.k1.r, k.k2.r, k.k3.r, k.k4.r),
        s: simpson_of(z.s, dt, k.k1.s, k.k2.s, k.k3.s, k.k4.s),
    }
}

/// Slopes with twice some others added.
spec fn with_twice(a: Waves<Dual>, b: Waves<Dual>) -> Waves<Dual> {
    Waves {
        r: Seq::new(a.r.len(), |i: int| plus(a.r[i], times(two(), b.r[i]))),
        s: Seq::new(a.s.len(), |i: int| plus(a.s[i], times(two(), b.s[i]))),
    }
}

#[verifier::spinoff_prover]
proof fn lemma_with_twice(cu: Curves, d: Waves<Dual>, a: Waves<Dual>, b: Waves<Dual>, n: int)
    requires
        n <= a.r.len(),
        a.r.len() == a.s.len(),
    ensures
        paired_state(cu, d, with_twice(a, b), n) == paired_state(cu, d, a, n) + prod(
            2real,
            paired_state(cu, d, b, n),
        ),
{
    let y = with_twice(a, b);
    lemma_constants(cu);
    assert forall|k: int| 0 <= k < n implies rate(cu, #[trigger] y.r[k]) == rate(cu, a.r[k]) + prod(
        2real,
        rate(cu, b.r[k]),
    ) && rate(cu, y.s[k]) == rate(cu, a.s[k]) + prod(2real, rate(cu, b.s[k])) by {
        lemma_plus(cu, a.r[k], times(two(), b.r[k]));
        lemma_plus(cu, a.s[k], times(two(), b.s[k]));
        lemma_still_times(cu, two(), b.r[k]);
        lemma_still_times(cu, two(), b.s[k]);
    }
    lemma_moved_state(cu, d, y, a, b, 2real, n);
}

#[verifier::spinoff_prover]
proof fn lemma_with_once(cu: Curves, d: Waves<Dual>, a: Waves<Dual>, b: Waves<Dual>, n: int)
    requires
        n <= a.r.len(),
        a.r.len() == a.s.len(),
    ensures
        paired_state(cu, d, sums(a, b), n) == paired_state(cu, d, a, n) + paired_state(cu, d, b, n),
{
    let y = sums(a, b);
    assert forall|k: int| 0 <= k < n implies rate(cu, #[trigger] y.r[k]) == rate(cu, a.r[k]) + prod(
        1real,
        rate(cu, b.r[k]),
    ) && rate(cu, y.s[k]) == rate(cu, a.s[k]) + prod(1real, rate(cu, b.s[k])) by {
        lemma_plus(cu, a.r[k], b.r[k]);
        lemma_plus(cu, a.s[k], b.s[k]);
        lemma_halves(1real, rate(cu, b.r[k]));
        lemma_halves(1real, rate(cu, b.s[k]));
    }
    lemma_moved_state(cu, d, y, a, b, 1real, n);
    lemma_halves(1real, paired_state(cu, d, b, n));
}

#[verifier::spinoff_prover]
proof fn lemma_simpson(
    cu: Curves,
    d: Waves<Dual>,
    z: Waves<Dual>,
    dt: Expr<Dual>,
    k: Slopes<Dual>,
    n: int,
)
    requires
        n == z.r.len(),
        n == z.s.len(),
        k.k1.r.len() == n,
        k.k1.s.len() == n,
        rate(cu, dt) == 0real,
    ensures
        ({
            let t = value(cu, dt) / 6real;
            paired_state(cu, d, simpson_next(z, dt, k), n) == paired_state(cu, d, z, n) + prod(
                t,
                paired_state(cu, d, k.k1, n),
            ) + prod(t, prod(2real, paired_state(cu, d, k.k2, n))) + prod(
                t,
                prod(2real, paired_state(cu, d, k.k3, n)),
            ) + prod(t, paired_state(cu, d, k.k4, n))
        }),
{
    let y = simpson_next(z, dt, k);
    let b2 = with_twice(k.k1, k.k2);
    let b3 = with_twice(b2, k.k3);
    let b4 = sums(b3, k.k4);
    let sixth = over(dt, Expr::Ratio(6, 1));
    let t = value(cu, dt) / 6real;
    lemma_part(cu, dt);
    assert forall|i: int| 0 <= i < n implies rate(cu, #[trigger] y.r[i]) == rate(cu, z.r[i]) + prod(
        t,
        rate(cu, b4.r[i]),
    ) && rate(cu, y.s[i]) == rate(cu, z.s[i]) + prod(t, rate(cu, b4.s[i])) by {
        assert(y.r[i] == plus(z.r[i], times(sixth, b4.r[i])));
        assert(y.s[i] == plus(z.s[i], times(sixth, b4.s[i])));
        lemma_plus(cu, z.r[i], times(sixth, b4.r[i]));
        lemma_plus(cu, z.s[i], times(sixth, b4.s[i]));
        lemma_still_times(cu, sixth, b4.r[i]);
        lemma_still_times(cu, sixth, b4.s[i]);
    }
    lemma_moved_state(cu, d, y, z, b4, t, n);
    lemma_with_twice(cu, d, k.k1, k.k2, n);
    lemma_with_twice(cu, d, b2, k.k3, n);
    lemma_with_once(cu, d, b3, k.k4, n);
    let (p1, p4) = (paired_state(cu, d, k.k1, n), paired_state(cu, d, k.k4, n));
    let p2 = prod(2real, paired_state(cu, d, k.k2, n));
    let p3 = prod(2real, paired_state(cu, d, k.k3, n));
    lemma_shared(t, p1 + p2 + p3, p4);
    lemma_shared(t, p1 + p2, p3);
    lemma_shared(t, p1, p2);
}

#[verifier::spinoff_prover]
proof fn lemma_fresh(cu: Curves, b: Back<Dual>, m: Medium<Dual>, z: Waves<Dual>, n: int)
    requires
        0 <= n,
        b.d_gamma.len() == n,
    ensures
        back_covers(fresh_of(b, n), n),
        paired_back(cu, fresh_of(b, n), m, z, n) == paired_medium(cu, b, m, n),
{
    lemma_no_state(cu, z, n, n);
    assert(waves_back(fresh_of(b, n)) == zero_waves(n));
    reveal(paired_medium);
}

/// No gradients of components.
spec fn zero_waves(n: int) -> Waves<Dual> {
    Waves {
        r: Seq::new(n as nat, |i: int| zero::<Dual>()),
        s: Seq::new(n as nat, |i: int| zero::<Dual>()),
    }
}

#[verifier::spinoff_prover]
proof fn lemma_no_state(cu: Curves, z: Waves<Dual>, i: int, n: int)
    requires
        i <= n,
    ensures
        paired_state(cu, zero_waves(n), z, i) == 0real,
    decreases i,
{
    if i > 0 {
        lemma_no_state(cu, z, i - 1, n);
        lemma_constants(cu);
        lemma_nothing(rate(cu, z.r[i - 1]));
        lemma_nothing(rate(cu, z.s[i - 1]));
        reveal(paired_wave);
    }
}

/// Slopes that change along the direction as those of a step from `z` do, each taken at the
/// point that the one before it leads to.
pub open spec fn slopes_along(
    cu: Curves,
    m: Medium<Dual>,
    dt: Expr<Dual>,
    z: Waves<Dual>,
    k: Slopes<Dual>,
    n: int,
) -> bool {
    &&& change_alike(cu, k.k1, drift_of(m, z), n)
    &&& change_alike(cu, k.k2, drift_of(m, halfway(z, dt, k.k1)), n)
    &&& change_alike(cu, k.k3, drift_of(m, halfway(z, dt, k.k2)), n)
    &&& change_alike(cu, k.k4, drift_of(m, ahead(z, dt, k.k3)), n)
}

/// The way back through a step is transposed to its derivative.
#[verifier::spinoff_prover]
proof fn lemma_step_back(
    cu: Curves,
    m: Medium<Dual>,
    dt: Expr<Dual>,
    z: Waves<Dual>,
    k: Slopes<Dual>,
    b: Back<Dual>,
    n: int,
)
    requires
        n == z.r.len(),
        n == z.s.len(),
        n <= usize::MAX,
        k.k1.r.len() == n,
        k.k1.s.len() == n,
        back_covers(b, n),
        rate(cu, dt) == 0real,
        forall|i: int| 0 <= i < n ==> rate(cu, #[trigger] m.omega[i]) == 0real,
        slopes_along(cu, m, dt, z, k, n),
    ensures
        back_covers(step_back(m, dt, z, k, b), n),
        paired_back(cu, step_back(m, dt, z, k, b), m, z, n) == paired_back(
            cu,
            b,
            m,
            simpson_next(z, dt, k),
            n,
        ),
{
    let h = value(cu, dt);
    let d0 = waves_back(b);
    let (z4, z3, z2) = (ahead(z, dt, k.k3), halfway(z, dt, k.k2), halfway(z, dt, k.k1));
    let in4 = shares(d0, dt, 6);
    let b4 = drift_back(m, z4, in4, fresh_of(b, n), n);
    let d1 = joined_of(d0, b4);
    let in3 = sums(shares(d0, dt, 3), carried(waves_back(b4), dt));
    let b3 = drift_back(m, z3, in3, fresh_of(b4, n), n);
    let d2 = joined_of(d1, b3);
    let in2 = sums(shares(d0, dt, 3), half_carried(waves_back(b3), dt));
    let b2 = drift_back(m, z2, in2, fresh_of(b3, n), n);
    let d3 = joined_of(d2, b2);
    let in1 = sums(shares(d0, dt, 6), half_carried(waves_back(b2), dt));
    let b1 = drift_back(m, z, in1, fresh_of(b2, n), n);
    let d4 = joined_of(d3, b1);
    let out = step_back(m, dt, z, k, b);
    assert(out == Back { d_r: d4.r, d_s: d4.s, ..b1 });
    // The last slope.
    lemma_fresh(cu, b, m, z4, n);
    lemma_drift_back(cu, m, z4, in4, fresh_of(b, n), n, n);
    lemma_alike_state(cu, in4, k.k4, drift_of(m, z4), n);
    lemma_shares(cu, d0, dt, k.k4, n);
    lemma_ahead(cu, waves_back(b4), z, dt, k.k3, n);
    // The third.
    lemma_fresh(cu, b4, m, z3, n);
    lemma_drift_back(cu, m, z3, in3, fresh_of(b4, n), n, n);
    lemma_alike_state(cu, in3, k.k3, drift_of(m, z3), n);
    lemma_sums(cu, shares(d0, dt, 3), carried(waves_back(b4), dt), k.k3, n);
    lemma_shares(cu, d0, dt, k.k3, n);
    lemma_carried(cu, waves_back(b4), dt, k.k3, n);
    lemma_halfway(cu, waves_back(b3), z, dt, k.k2, n);
    // The second.
    lemma_fresh(cu, b3, m, z2, n);
    lemma_drift_back(cu, m, z2, in2, fresh_of(b3, n), n, n);
    lemma_alike_state(cu, in2, k.k2, drift_of(m, z2), n);
    lemma_sums(cu, shares(d0, dt, 3), half_carried(waves_back(b3), dt), k.k2, n);
    lemma_shares(cu, d0, dt, k.k2, n);
    lemma_carried(cu, waves_back(b3), dt, k.k2, n);
    lemma_halfway(cu, waves_back(b2), z, dt, k.k1, n);
    // The first.
    lemma_fresh(cu, b2, m, z, n);
    lemma_drift_back(cu, m, z, in1, fresh_of(b2, n), n, n);
    lemma_alike_state(cu, in1, k.k1, drift_of(m, z), n);
    lemma_sums(cu, shares(d0, dt, 6), half_carried(waves_back(b2), dt), k.k1, n);
    lemma_shares(cu, d0, dt, k.k1, n);
    lemma_carried(cu, waves_back(b2), dt, k.k1, n);
    // The state before the step.
    lemma_sums(cu, d0, waves_back(b4), z, n);
    lemma_sums(cu, d1, waves_back(b3), z, n);
    lemma_sums(cu, d2, waves_back(b2), z, n);
    lemma_sums(cu, d3, waves_back(b1), z, n);
    assert(waves_back(out) == d4);
    assert(paired_medium(cu, out, m, n) == paired_medium(cu, b1, m, n)) by {
        reveal(paired_medium);
    }
    // The step itself.
    lemma_simpson(cu, d0, z, dt, k, n);
    lemma_fractions(h, paired_state(cu, d0, k.k2, n));
    lemma_fractions(h, paired_state(cu, d0, k.k3, n));
}

/// The state before step `i` of a cache, and the one after the last.
pub open spec fn reached(c: OdeForwardCache<Dual>, end: Waves<Dual>, i: int) -> Waves<Dual> {
    if i < c.rk4_steps {
        cached_state(c, i)
    } else {
        end
    }
}

/// A cache that changes along the direction as an integration does that ends in `end`: slope by
/// slope and step by step. The step's length and the frequencies stand still.
pub open spec fn integration_along(
    cu: Curves,
    c: OdeForwardCache<Dual>,
    w: KerrWeights<Dual>,
    end: Waves<Dual>,
) -> bool {
    let n = c.n_bands as int;
    let m = cached_medium(c, w);
    let dt = val(c.dt);
    &&& rate(cu, dt) == 0real
    &&& forall|k: int| 0 <= k < n ==> rate(cu, #[trigger] m.omega[k]) == 0real
    &&& forall|i: int|
        0 <= i < c.rk4_steps ==> {
            let z = #[trigger] cached_state(c, i);
            let k = cached_slopes(c, i);
            &&& slopes_along(cu, m, dt, z, k, n)
            &&& change_alike(cu, reached(c, end, i + 1), simpson_next(z, dt, k), n)
        }
}

#[verifier::spinoff_prover]
proof fn lemma_steps_back(
    cu: Curves,
    c: OdeForwardCache<Dual>,
    w: KerrWeights<Dual>,
    end: Waves<Dual>,
    b: Back<Dual>,
    i: int,
)
    requires
        cache_shaped(c, w),
        integration_along(cu, c, w, end),
        back_covers(b, c.n_bands as int),
        0 <= i <= c.rk4_steps,
    ensures
        ({
            let n = c.n_bands as int;
            let m = cached_medium(c, w);
            &&& back_covers(steps_back(c, w, b, i), n)
            &&& paired_back(cu, steps_back(c, w, b, i), m, reached(c, end, i), n) == paired_back(
                cu,
                b,
                m,
                end,
                n,
            )
        }),
    decreases c.rk4_steps - i,
{
    let n = c.n_bands as int;
    let m = cached_medium(c, w);
    let dt = val(c.dt);
    if i < c.rk4_steps {
        lemma_steps_back(cu, c, w, end, b, i + 1);
        let next = steps_back(c, w, b, i + 1);
        let z = cached_state(c, i);
        let k = cached_slopes(c, i);
        assert(entries_shaped(c.r_at_step@, c.s_at_step@, c.kr@, c.ks@, i, n));
        lemma_step_back(cu, m, dt, z, k, next, n);
        lemma_alike_state(
            cu,
            waves_back(next),
            reached(c, end, i + 1),
            simpson_next(z, dt, k),
            n,
        );
    }
}

/// The way back through an integration is transposed to its derivative: in exact arithmetic,
/// whatever direction the input and the parameters change in, the output's gradients amount to
/// as much along it as the gradients that the way back finds for the input, the dampings and
/// both couplings.
#[verifier::spinoff_prover]
pub proof fn law_ode_back_is_transposed(
    cu: Curves,
    d_output: Seq<Dual>,
    c: OdeForwardCache<Dual>,
    w: KerrWeights<Dual>,
    end: Waves<Dual>,
)
    requires
        cache_shaped(c, w),
        2 * c.n_bands <= d_output.len(),
        integration_along(cu, c, w, end),
    ensures
        ({
            let n = c.n_bands as int;
            let m = cached_medium(c, w);
            let out = ode_back(d_output, c, w);
            &&& back_covers(out, n)
            &&& paired_state(cu, waves_of(vals(d_output), n), end, n) == paired_state(
                cu,
                waves_back(out),
                reached(c, end, 0),
                n,
            ) + paired_medium(cu, out, m, n)
        }),
{
    let n = c.n_bands as int;
    let m = cached_medium(c, w);
    let b = end_back(d_output, n);
    assert(back_covers(b, n));
    lemma_steps_back(cu, c, w, end, b, 0);
    assert(waves_back(b) == waves_of(vals(d_output), n));
    assert(paired_medium(cu, b, m, n) == 0real) by {
        assert(b.d_gamma =~= zeros_of(n));
        lemma_no_numbers(cu, m.gamma, n, n);
        lemma_constants(cu);
        lemma_nothing(rate(cu, m.alpha));
        lemma_nothing(rate(cu, m.beta));
        reveal(paired_medium);
    }
}

} // verus!
