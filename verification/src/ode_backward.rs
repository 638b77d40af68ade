//! The gradient of the ODE: an integration that keeps what the way back needs, and the way
//! back through it.

use vstd::prelude::*;
use crate::arith::{Arith, Traced, TracedVec};
#[allow(unused_imports)]
use crate::arith::{Expr, Unary, fits, fits_all, minus, over, plus, times, un, val, vals, zero};
use crate::kerr::{
    Params, State, ahead_on, around_on, drift_on, energy_on, halfway_on, params_on, waves_on,
    woven_on,
};
#[allow(unused_imports)]
use crate::kerr::{
    Medium, Waves, ahead, around_of, drift_of, dt_of, energy_of, halfway, kerr_shaped, medium_of,
    phi_of, waves_of, woven_of,
};
use crate::layers::{softplus_slope_on, sums_on, traced};
#[allow(unused_imports)]
use crate::layers::{softplus_slope_of, sums_of};
use crate::ode::neighbours;
#[allow(unused_imports)]
use crate::ode::neighbours_of;
use crate::weights::KerrWeights;

verus! {

/// Two.
pub open spec fn two<T>() -> Expr<T> {
    Expr::Ratio(2, 1)
}

/// Components a step ahead along `(k1 + 2 k2 + 2 k3 + k4) / 6`.
pub open spec fn simpson_of<T>(
    x: Seq<Expr<T>>,
    dt: Expr<T>,
    k1: Seq<Expr<T>>,
    k2: Seq<Expr<T>>,
    k3: Seq<Expr<T>>,
    k4: Seq<Expr<T>>,
) -> Seq<Expr<T>> {
    Seq::new(
        x.len(),
        |i: int|
            plus(
                x[i],
                times(
                    over(dt, Expr::Ratio(6, 1)),
                    plus(plus(plus(k1[i], times(two(), k2[i])), times(two(), k3[i])), k4[i]),
                ),
            ),
    )
}

/// The four slopes of a step.
pub struct Slopes<T> {
    pub k1: Waves<T>,
    pub k2: Waves<T>,
    pub k3: Waves<T>,
    pub k4: Waves<T>,
}

/// The four slopes of a step from `z`.
pub open spec fn slopes_of<T>(m: Medium<T>, dt: Expr<T>, z: Waves<T>) -> Slopes<T> {
    let k1 = drift_of(m, z);
    let k2 = drift_of(m, halfway(z, dt, k1));
    let k3 = drift_of(m, halfway(z, dt, k2));
    let k4 = drift_of(m, ahead(z, dt, k3));
    Slopes { k1, k2, k3, k4 }
}

/// The state after a step.
pub open spec fn simpson_step<T>(m: Medium<T>, dt: Expr<T>, z: Waves<T>) -> Waves<T> {
    let k = slopes_of(m, dt, z);
    Waves {
        r: simpson_of(z.r, dt, k.k1.r, k.k2.r, k.k3.r, k.k4.r),
        s: simpson_of(z.s, dt, k.k1.s, k.k2.s, k.k3.s, k.k4.s),
    }
}

/// The state after `n` steps.
pub open spec fn simpson_steps<T>(m: Medium<T>, dt: Expr<T>, z: Waves<T>, n: int) -> Waves<T>
    decreases n,
{
    if n <= 0 {
        z
    } else {
        simpson_step(m, dt, simpson_steps(m, dt, z, n - 1))
    }
}

/// What an integration keeps: the state before every step, and the four slopes there.
pub struct OdeForwardCache<T> {
    pub n_bands: usize,
    pub rk4_steps: usize,
    pub dt: T,
    pub gamma: Vec<T>,
    pub r_at_step: Vec<Vec<T>>,
    pub s_at_step: Vec<Vec<T>>,
    pub kr: Vec<[Vec<T>; 4]>,
    pub ks: Vec<[Vec<T>; 4]>,
}

/// The waves that a layer starts from without a memory.
pub open spec fn entry_of<T>(w: KerrWeights<T>, x: Seq<T>) -> Waves<T> {
    waves_of(vals(x), w.gamma_raw@.len() as int)
}

/// The state of a layer before step `i`.
pub open spec fn before_step<T>(w: KerrWeights<T>, x: Seq<T>, i: int) -> Waves<T> {
    simpson_steps(medium_of(w, zero()), dt_of(w), entry_of(w, x), i)
}

/// The cache holds the states before the first `n` steps, and their slopes.
pub open spec fn cache_holds<T: Copy, A: Arith<T>>(
    ops: A,
    w: KerrWeights<T>,
    x: Seq<T>,
    r_at: Seq<Vec<T>>,
    s_at: Seq<Vec<T>>,
    kr: Seq<[Vec<T>; 4]>,
    ks: Seq<[Vec<T>; 4]>,
    n: int,
) -> bool {
    &&& r_at.len() == n
    &&& s_at.len() == n
    &&& kr.len() == n
    &&& ks.len() == n
    &&& forall|i: int|
        0 <= i < n ==> {
            &&& fits_all(ops, before_step(w, x, i).r, (#[trigger] r_at[i])@)
            &&& fits_all(ops, before_step(w, x, i).s, s_at[i]@)
            &&& slopes_fit(
                ops,
                slopes_of(medium_of(w, zero()), dt_of(w), before_step(w, x, i)),
                kr[i],
                ks[i],
            )
        }
}

/// Values of four slopes.
pub open spec fn slopes_fit<T: Copy, A: Arith<T>>(
    ops: A,
    k: Slopes<T>,
    kr: [Vec<T>; 4],
    ks: [Vec<T>; 4],
) -> bool {
    &&& fits_all(ops, k.k1.r, kr[0]@)
    &&& fits_all(ops, k.k2.r, kr[1]@)
    &&& fits_all(ops, k.k3.r, kr[2]@)
    &&& fits_all(ops, k.k4.r, kr[3]@)
    &&& fits_all(ops, k.k1.s, ks[0]@)
    &&& fits_all(ops, k.k2.s, ks[1]@)
    &&& fits_all(ops, k.k3.s, ks[2]@)
    &&& fits_all(ops, k.k4.s, ks[3]@)
}

/// The entries of a cache that step `i` of a layer's `n` bands left.
pub open spec fn entries_shaped<T>(
    r_at: Seq<Vec<T>>,
    s_at: Seq<Vec<T>>,
    kr: Seq<[Vec<T>; 4]>,
    ks: Seq<[Vec<T>; 4]>,
    i: int,
    n: int,
) -> bool {
    &&& r_at[i]@.len() == n
    &&& s_at[i]@.len() == n
    &&& kr[i][0]@.len() == n
    &&& kr[i][1]@.len() == n
    &&& kr[i][2]@.len() == n
    &&& kr[i][3]@.len() == n
    &&& ks[i][0]@.len() == n
    &&& ks[i][1]@.len() == n
    &&& ks[i][2]@.len() == n
    &&& ks[i][3]@.len() == n
}

/// A cache of an integration of a layer.
pub open spec fn cache_shaped<T>(c: OdeForwardCache<T>, w: KerrWeights<T>) -> bool {
    let n = c.n_bands as int;
    &&& 2 * n <= usize::MAX
    &&& n <= c.gamma@.len()
    &&& n <= w.omega@.len()
    &&& n <= w.gamma_raw@.len()
    &&& c.r_at_step@.len() == c.rk4_steps
    &&& c.s_at_step@.len() == c.rk4_steps
    &&& c.kr@.len() == c.rk4_steps
    &&& c.ks@.len() == c.rk4_steps
    &&& forall|i: int|
        0 <= i < c.rk4_steps ==> #[trigger] entries_shaped(
            c.r_at_step@,
            c.s_at_step@,
            c.kr@,
            c.ks@,
            i,
            n,
        )
}

fn simpson_on<T: Copy, A: Arith<T>>(
    ops: &A,
    x: &TracedVec<T>,
    dt: Traced<T>,
    k1: &TracedVec<T>,
    k2: &TracedVec<T>,
    k3: &TracedVec<T>,
    k4: &TracedVec<T>,
) -> (out: TracedVec<T>)
    requires
        x.ok(*ops),
        dt.ok(*ops),
        k1.ok(*ops),
        k2.ok(*ops),
        k3.ok(*ops),
        k4.ok(*ops),
        k1.v@.len() == x.v@.len(),
        k2.v@.len() == x.v@.len(),
        k3.v@.len() == x.v@.len(),
        k4.v@.len() == x.v@.len(),
    ensures
        out.ok(*ops),
        out.e@ == simpson_of(x.e@, dt.e@, k1.e@, k2.e@, k3.e@, k4.e@),
{
    let n: usize = x.len();
    let sixth: Traced<T> = dt.over(ops, Traced::ratio(ops, 6, 1));
    let pair: Traced<T> = Traced::ratio(ops, 2, 1);
    let ghost es = simpson_of(x.e@, dt.e@, k1.e@, k2.e@, k3.e@, k4.e@);
    let mut out: TracedVec<T> = TracedVec::new(ops);
    let mut i: usize = 0;
    assert(out.e@ =~= es.take(0));
    while i < n
        invariant
            x.ok(*ops),
            k1.ok(*ops),
            k2.ok(*ops),
            k3.ok(*ops),
            k4.ok(*ops),
            n == x.v@.len(),
            k1.v@.len() == n,
            k2.v@.len() == n,
            k3.v@.len() == n,
            k4.v@.len() == n,
            sixth.ok(*ops),
            sixth.e@ == over(dt.e@, Expr::Ratio(6, 1)),
            pair.ok(*ops),
            pair.e@ == two::<T>(),
            es == simpson_of(x.e@, dt.e@, k1.e@, k2.e@, k3.e@, k4.e@),
            i <= n,
            out.ok(*ops),
            out.e@ == es.take(i as int),
        decreases n - i,
    {
        let sum: Traced<T> = k1.get(ops, i).plus(ops, pair.times(ops, k2.get(ops, i))).plus(
            ops,
            pair.times(ops, k3.get(ops, i)),
        ).plus(ops, k4.get(ops, i));
        out.push(ops, x.get(ops, i).plus(ops, sixth.times(ops, sum)));
        i += 1;
        assert(out.e@ =~= es.take(i as int));
    }
    assert(es.take(n as int) =~= es);
    out
}

/// Integrates a vector of waves without four-wave mixing, and keeps what the way back
/// needs.
pub fn ode_forward_with_cache<T: Copy, A: Arith<T>>(
    ops: &A,
    x: &[T],
    weights: &KerrWeights<T>,
) -> (res: (Vec<T>, OdeForwardCache<T>))
    requires
        kerr_shaped(*weights, weights.gamma_raw@.len() as int),
        2 * weights.gamma_raw@.len() <= x@.len(),
    ensures
        fits_all(
            *ops,
            woven_of(before_step(*weights, x@, weights.rk4_n_steps as int)),
            res.0@,
        ),
        res.1.n_bands == weights.gamma_raw@.len(),
        res.1.rk4_steps == weights.rk4_n_steps,
        fits(*ops, dt_of(*weights), res.1.dt),
        fits_all(*ops, medium_of(*weights, zero()).gamma, res.1.gamma@),
        cache_holds(
            *ops,
            *weights,
            x@,
            res.1.r_at_step@,
            res.1.s_at_step@,
            res.1.kr@,
            res.1.ks@,
            weights.rk4_n_steps as int,
        ),
        cache_shaped(res.1, *weights),
{
    let n: usize = weights.gamma_raw.len();
    let steps: usize = weights.rk4_n_steps;
    let dt: Traced<T> = Traced::ratio(ops, 1, 1).over(ops, Traced::count(ops, steps));
    let m: Params<T> = params_on(ops, weights, Traced::ratio(ops, 0, 1));
    let mut z: State<T> = waves_on(ops, &traced(ops, x), n);
    let mut r_at_step: Vec<Vec<T>> = Vec::new();
    let mut s_at_step: Vec<Vec<T>> = Vec::new();
    let mut kr: Vec<[Vec<T>; 4]> = Vec::new();
    let mut ks: Vec<[Vec<T>; 4]> = Vec::new();
    let mut i: usize = 0;
    while i < steps
        invariant
            n == weights.gamma_raw@.len(),
            2 * n <= usize::MAX,
            steps == weights.rk4_n_steps,
            m.ok(*ops, n as int),
            m.medium() == medium_of(*weights, zero()),
            dt.ok(*ops),
            dt.e@ == dt_of(*weights),
            i <= steps,
            z.ok(*ops, n as int),
            z.waves() == before_step(*weights, x@, i as int),
            cache_holds(
                *ops,
                *weights,
                x@,
                r_at_step@,
                s_at_step@,
                kr@,
                ks@,
                i as int,
            ),
            forall|j: int|
                0 <= j < i ==> #[trigger] entries_shaped(
                    r_at_step@,
                    s_at_step@,
                    kr@,
                    ks@,
                    j,
                    n as int,
                ),
        decreases steps - i,
    {
        assert(n <= usize::MAX - 2);
        let k1: State<T> = drift_on(ops, &m, &z);
        let z2: State<T> = State {
            r: halfway_on(ops, &z.r, dt, &k1.r),
            s: halfway_on(ops, &z.s, dt, &k1.s),
        };
        assert(z2.waves() == halfway(z.waves(), dt.e@, k1.waves()));
        let k2: State<T> = drift_on(ops, &m, &z2);
        let z3: State<T> = State {
            r: halfway_on(ops, &z.r, dt, &k2.r),
            s: halfway_on(ops, &z.s, dt, &k2.s),
        };
        assert(z3.waves() == halfway(z.waves(), dt.e@, k2.waves()));
        let k3: State<T> = drift_on(ops, &m, &z3);
        let z4: State<T> = State {
            r: ahead_on(ops, &z.r, dt, &k3.r),
            s: ahead_on(ops, &z.s, dt, &k3.s),
        };
        assert(z4.waves() == ahead(z.waves(), dt.e@, k3.waves()));
        let k4: State<T> = drift_on(ops, &m, &z4);
        let next: State<T> = State {
            r: simpson_on(ops, &z.r, dt, &k1.r, &k2.r, &k3.r, &k4.r),
            s: simpson_on(ops, &z.s, dt, &k1.s, &k2.s, &k3.s, &k4.s),
        };
        let ghost now = before_step(*weights, x@, i as int);
        assert(next.waves() == simpson_step(m.medium(), dt.e@, now));
        let ghost sl = slopes_of(m.medium(), dt.e@, now);
        let old_z: State<T> = z;
        let kr_now: [Vec<T>; 4] = [k1.r.v, k2.r.v, k3.r.v, k4.r.v];
        let ks_now: [Vec<T>; 4] = [k1.s.v, k2.s.v, k3.s.v, k4.s.v];
        assert(slopes_fit(*ops, sl, kr_now, ks_now));
        let ghost (ra, sa, kra, ksa) = (r_at_step@, s_at_step@, kr@, ks@);
        r_at_step.push(old_z.r.v);
        s_at_step.push(old_z.s.v);
        kr.push(kr_now);
        ks.push(ks_now);
        assert forall|j: int| 0 <= j < i + 1 implies #[trigger] entries_shaped(
            r_at_step@,
            s_at_step@,
            kr@,
            ks@,
            j,
            n as int,
        ) by {
            if j < i {
                assert(entries_shaped(ra, sa, kra, ksa, j, n as int));
            }
        }
        z = next;
        i += 1;
    }
    let out: TracedVec<T> = woven_on(ops, &z);
    let cache = OdeForwardCache {
        n_bands: n,
        rk4_steps: steps,
        dt: dt.v,
        gamma: m.gamma.v,
        r_at_step,
        s_at_step,
        kr,
        ks,
    };
    (out.v, cache)
}

/// Gradients on the way back: of the two components of every band, of every damping, and
/// of the two strengths.
pub struct Back<T> {
    pub d_r: Seq<Expr<T>>,
    pub d_s: Seq<Expr<T>>,
    pub d_gamma: Seq<Expr<T>>,
    pub d_alpha: Expr<T>,
    pub d_beta: Expr<T>,
}

/// The entries with `x` added at `i`.
pub open spec fn grown<T>(xs: Seq<Expr<T>>, i: int, x: Expr<T>) -> Seq<Expr<T>> {
    xs.update(i, plus(xs[i], x))
}

/// `2 * a * x * y`
pub open spec fn twice<T>(a: Expr<T>, x: Expr<T>, y: Expr<T>) -> Expr<T> {
    times(times(times(two(), a), x), y)
}

/// `-2 * a * x * y`
pub open spec fn minus_twice<T>(a: Expr<T>, x: Expr<T>, y: Expr<T>) -> Expr<T> {
    times(times(times(un(Unary::Negated, two()), a), x), y)
}

/// What the slopes of band `k` give the gradients of its own components, through damping,
/// turning and its own energy.
pub open spec fn own_back<T>(
    m: Medium<T>,
    z: Waves<T>,
    d: Waves<T>,
    b: Back<T>,
    k: int,
) -> Back<T> {
    let (r, s) = (z.r[k], z.s[k]);
    let phi = phi_of(m, z, k);
    Back {
        d_r: grown(
            grown(
                b.d_r,
                k,
                times(d.r[k], minus(un(Unary::Negated, m.gamma[k]), twice(m.alpha, r, s))),
            ),
            k,
            times(d.s[k], plus(phi, twice(m.alpha, r, r))),
        ),
        d_s: grown(
            grown(
                b.d_s,
                k,
                times(d.r[k], minus(un(Unary::Negated, phi), twice(m.alpha, s, s))),
            ),
            k,
            times(d.s[k], plus(un(Unary::Negated, m.gamma[k]), twice(m.alpha, r, s))),
        ),
        ..b
    }
}

/// What the slopes of band `k` give the gradients of its neighbour `j`.
pub open spec fn near_back<T>(
    m: Medium<T>,
    z: Waves<T>,
    d: Waves<T>,
    b: Back<T>,
    k: int,
    j: int,
) -> Back<T> {
    Back {
        d_r: grown(
            grown(b.d_r, j, times(d.r[k], minus_twice(m.beta, z.r[j], z.s[k]))),
            j,
            times(d.s[k], twice(m.beta, z.r[j], z.r[k])),
        ),
        d_s: grown(
            grown(b.d_s, j, times(d.r[k], minus_twice(m.beta, z.s[j], z.s[k]))),
            j,
            times(d.s[k], twice(m.beta, z.s[j], z.r[k])),
        ),
        ..b
    }
}

/// What the slopes of band `k` give the gradients of its first `n` neighbours.
pub open spec fn nears_back<T>(
    m: Medium<T>,
    z: Waves<T>,
    d: Waves<T>,
    b: Back<T>,
    k: int,
    js: Seq<usize>,
    n: int,
) -> Back<T>
    decreases n,
{
    if n <= 0 {
        b
    } else {
        near_back(m, z, d, nears_back(m, z, d, b, k, js, n - 1), k, js[n - 1] as int)
    }
}

/// What the slopes of band `k` give the gradients of the parameters.
pub open spec fn params_back<T>(
    m: Medium<T>,
    z: Waves<T>,
    d: Waves<T>,
    b: Back<T>,
    k: int,
) -> Back<T> {
    let (r, s) = (z.r[k], z.s[k]);
    let own = energy_of(r, s);
    let near = around_of(z, k);
    Back {
        d_gamma: grown(
            b.d_gamma,
            k,
            plus(times(d.r[k], un(Unary::Negated, r)), times(d.s[k], un(Unary::Negated, s))),
        ),
        d_alpha: plus(
            b.d_alpha,
            plus(
                times(d.r[k], times(un(Unary::Negated, own), s)),
                times(d.s[k], times(own, r)),
            ),
        ),
        d_beta: plus(
            b.d_beta,
            plus(
                times(d.r[k], times(un(Unary::Negated, near), s)),
                times(d.s[k], times(near, r)),
            ),
        ),
        ..b
    }
}

/// The way back through the slopes of band `k`.
pub open spec fn band_back<T>(m: Medium<T>, z: Waves<T>, d: Waves<T>, b: Back<T>, k: int) -> Back<
    T,
> {
    let js = neighbours_of(k, z.r.len() as int);
    params_back(m, z, d, nears_back(m, z, d, own_back(m, z, d, b, k), k, js, js.len() as int), k)
}

/// The way back through the slopes of the first `n` bands at `z`, where `d` holds the
/// gradients of the slopes.
pub open spec fn drift_back<T>(m: Medium<T>, z: Waves<T>, d: Waves<T>, b: Back<T>, n: int) -> Back<
    T,
>
    decreases n,
{
    if n <= 0 {
        b
    } else {
        band_back(m, z, d, drift_back(m, z, d, b, n - 1), n - 1)
    }
}

/// Gradients on the way back, traced.
pub struct BackState<T> {
    pub d_r: TracedVec<T>,
    pub d_s: TracedVec<T>,
    pub d_gamma: TracedVec<T>,
    pub d_alpha: Traced<T>,
    pub d_beta: Traced<T>,
}

impl<T: Copy> BackState<T> {
    /// Traced, with `n` bands.
    pub open spec fn ok<A: Arith<T>>(&self, ops: A, n: int) -> bool {
        &&& self.d_r.ok(ops)
        &&& self.d_s.ok(ops)
        &&& self.d_gamma.ok(ops)
        &&& self.d_alpha.ok(ops)
        &&& self.d_beta.ok(ops)
        &&& self.d_r.v@.len() == n
        &&& self.d_s.v@.len() == n
        &&& self.d_gamma.v@.len() == n
    }

    /// The formulas of the gradients.
    pub open spec fn back(&self) -> Back<T> {
        Back {
            d_r: self.d_r.e@,
            d_s: self.d_s.e@,
            d_gamma: self.d_gamma.e@,
            d_alpha: self.d_alpha.e@,
            d_beta: self.d_beta.e@,
        }
    }
}

/// `2 * a * x * y`, traced.
pub fn twice_on<T: Copy, A: Arith<T>>(ops: &A, a: Traced<T>, x: Traced<T>, y: Traced<T>) -> (out: Traced<
    T,
>)
    requires
        a.ok(*ops),
        x.ok(*ops),
        y.ok(*ops),
    ensures
        out.ok(*ops),
        out.e@ == twice(a.e@, x.e@, y.e@),
{
    Traced::ratio(ops, 2, 1).times(ops, a).times(ops, x).times(ops, y)
}

/// `-2 * a * x * y`, traced.
pub fn minus_twice_on<T: Copy, A: Arith<T>>(
    ops: &A,
    a: Traced<T>,
    x: Traced<T>,
    y: Traced<T>,
) -> (out: Traced<T>)
    requires
        a.ok(*ops),
        x.ok(*ops),
        y.ok(*ops),
    ensures
        out.ok(*ops),
        out.e@ == minus_twice(a.e@, x.e@, y.e@),
{
    Traced::ratio(ops, 2, 1).negated(ops).times(ops, a).times(ops, x).times(ops, y)
}

/// The way back through the slopes of band `k`, traced.
fn band_back_on<T: Copy, A: Arith<T>>(
    ops: &A,
    m: &Params<T>,
    z: &State<T>,
    d: &State<T>,
    b: BackState<T>,
    k: usize,
) -> (out: BackState<T>)
    requires
        z.ok(*ops, z.r.v@.len() as int),
        d.ok(*ops, z.r.v@.len() as int),
        m.ok(*ops, z.r.v@.len() as int),
        b.ok(*ops, z.r.v@.len() as int),
        k < z.r.v@.len(),
        z.r.v@.len() <= usize::MAX - 2,
    ensures
        out.ok(*ops, z.r.v@.len() as int),
        out.back() == band_back(m.medium(), z.waves(), d.waves(), b.back(), k as int),
{
    let n: usize = z.r.len();
    let r: Traced<T> = z.r.get(ops, k);
    let s: Traced<T> = z.s.get(ops, k);
    let ddr: Traced<T> = d.r.get(ops, k);
    let dds: Traced<T> = d.s.get(ops, k);
    let gamma: Traced<T> = m.gamma.get(ops, k);
    let own: Traced<T> = energy_on(ops, r, s);
    let near: Traced<T> = around_on(ops, z, k);
    let phi: Traced<T> = m.omega.get(ops, k).plus(ops, m.alpha.times(ops, own)).plus(
        ops,
        m.beta.times(ops, near),
    );
    let ghost b0 = b.back();
    let mut d_r: TracedVec<T> = b.d_r;
    let mut d_s: TracedVec<T> = b.d_s;
    let mut d_gamma: TracedVec<T> = b.d_gamma;
    let rs: Traced<T> = twice_on(ops, m.alpha, r, s);
    d_r.grow(ops, k, ddr.times(ops, gamma.negated(ops).minus(ops, rs)));
    d_s.grow(
        ops,
        k,
        ddr.times(ops, phi.negated(ops).minus(ops, twice_on(ops, m.alpha, s, s))),
    );
    d_r.grow(ops, k, dds.times(ops, phi.plus(ops, twice_on(ops, m.alpha, r, r))));
    d_s.grow(ops, k, dds.times(ops, gamma.negated(ops).plus(ops, rs)));
    let ghost b1 = own_back(m.medium(), z.waves(), d.waves(), b0, k as int);
    assert(d_r.e@ == b1.d_r);
    assert(d_s.e@ == b1.d_s);
    let js: Vec<usize> = neighbours(k, n);
    let count: usize = js.len();
    let mut i: usize = 0;
    while i < count
        invariant
            z.ok(*ops, n as int),
            m.ok(*ops, n as int),
            k < n,
            count == js@.len(),
            js@ == neighbours_of(k as int, n as int),
            r.ok(*ops),
            s.ok(*ops),
            ddr.ok(*ops),
            dds.ok(*ops),
            r.e@ == z.waves().r[k as int],
            s.e@ == z.waves().s[k as int],
            ddr.e@ == d.waves().r[k as int],
            dds.e@ == d.waves().s[k as int],
            i <= count,
            d_r.ok(*ops),
            d_s.ok(*ops),
            d_r.v@.len() == n,
            d_s.v@.len() == n,
            d_r.e@ == nears_back(
                m.medium(),
                z.waves(),
                d.waves(),
                b1,
                k as int,
                js@,
                i as int,
            ).d_r,
            d_s.e@ == nears_back(
                m.medium(),
                z.waves(),
                d.waves(),
                b1,
                k as int,
                js@,
                i as int,
            ).d_s,
            nears_back(m.medium(), z.waves(), d.waves(), b1, k as int, js@, i as int).d_gamma
                == b1.d_gamma,
            nears_back(m.medium(), z.waves(), d.waves(), b1, k as int, js@, i as int).d_alpha
                == b1.d_alpha,
            nears_back(m.medium(), z.waves(), d.waves(), b1, k as int, js@, i as int).d_beta
                == b1.d_beta,
        decreases count - i,
    {
        let j: usize = js[i];
        assert(j < n);
        let rj: Traced<T> = z.r.get(ops, j);
        let sj: Traced<T> = z.s.get(ops, j);
        d_r.grow(ops, j, ddr.times(ops, minus_twice_on(ops, m.beta, rj, s)));
        d_s.grow(ops, j, ddr.times(ops, minus_twice_on(ops, m.beta, sj, s)));
        d_r.grow(ops, j, dds.times(ops, twice_on(ops, m.beta, rj, r)));
        d_s.grow(ops, j, dds.times(ops, twice_on(ops, m.beta, sj, r)));
        i += 1;
    }
    d_gamma.grow(
        ops,
        k,
        ddr.times(ops, r.negated(ops)).plus(ops, dds.times(ops, s.negated(ops))),
    );
    let d_alpha: Traced<T> = b.d_alpha.plus(
        ops,
        ddr.times(ops, own.negated(ops).times(ops, s)).plus(
            ops,
            dds.times(ops, own.times(ops, r)),
        ),
    );
    let d_beta: Traced<T> = b.d_beta.plus(
        ops,
        ddr.times(ops, near.negated(ops).times(ops, s)).plus(
            ops,
            dds.times(ops, near.times(ops, r)),
        ),
    );
    BackState { d_r, d_s, d_gamma, d_alpha, d_beta }
}

/// The way back through the slopes of all bands, traced.
fn drift_back_on<T: Copy, A: Arith<T>>(
    ops: &A,
    m: &Params<T>,
    z: &State<T>,
    d: &State<T>,
    b: BackState<T>,
) -> (out: BackState<T>)
    requires
        z.ok(*ops, z.r.v@.len() as int),
        d.ok(*ops, z.r.v@.len() as int),
        m.ok(*ops, z.r.v@.len() as int),
        b.ok(*ops, z.r.v@.len() as int),
        z.r.v@.len() <= usize::MAX - 2,
    ensures
        out.ok(*ops, z.r.v@.len() as int),
        out.back() == drift_back(
            m.medium(),
            z.waves(),
            d.waves(),
            b.back(),
            z.r.v@.len() as int,
        ),
{
    let n: usize = z.r.len();
    let ghost b0 = b.back();
    let mut acc: BackState<T> = b;
    let mut k: usize = 0;
    while k < n
        invariant
            z.ok(*ops, n as int),
            d.ok(*ops, n as int),
            m.ok(*ops, n as int),
            n <= usize::MAX - 2,
            k <= n,
            acc.ok(*ops, n as int),
            acc.back() == drift_back(m.medium(), z.waves(), d.waves(), b0, k as int),
        decreases n - k,
    {
        acc = band_back_on(ops, m, z, d, acc, k);
        k += 1;
    }
    acc
}

/// What a slope gets of the gradients: `d * dt / q`.
pub open spec fn share_of<T>(d: Seq<Expr<T>>, dt: Expr<T>, q: u64) -> Seq<Expr<T>> {
    Seq::new(d.len(), |i: int| over(times(d[i], dt), Expr::Ratio(q, 1)))
}

/// What the slope of a whole step gets of the gradients of the state it led to: `d * dt`.
pub open spec fn carried_of<T>(d: Seq<Expr<T>>, dt: Expr<T>) -> Seq<Expr<T>> {
    Seq::new(d.len(), |i: int| times(d[i], dt))
}

/// What the slope of half a step gets of the gradients of the state it led to:
/// `d * 0.5 * dt`.
pub open spec fn half_carried_of<T>(d: Seq<Expr<T>>, dt: Expr<T>) -> Seq<Expr<T>> {
    Seq::new(d.len(), |i: int| times(times(d[i], Expr::Ratio(1, 2)), dt))
}

/// The gradients of parameters, with none yet of the `n` bands.
pub open spec fn fresh_of<T>(b: Back<T>, n: int) -> Back<T> {
    Back {
        d_r: Seq::new(n as nat, |i: int| zero::<T>()),
        d_s: Seq::new(n as nat, |i: int| zero::<T>()),
        ..b
    }
}

/// The state's gradients with those of a point of evaluation added.
pub open spec fn joined_of<T>(d: Waves<T>, b: Back<T>) -> Waves<T> {
    Waves { r: sums_of(d.r, b.d_r), s: sums_of(d.s, b.d_s) }
}

/// The way back through a step from `z` with the slopes `k`: the gradients of the state
/// after it become those of the state before it.
pub open spec fn step_back<T>(
    m: Medium<T>,
    dt: Expr<T>,
    z: Waves<T>,
    k: Slopes<T>,
    b: Back<T>,
) -> Back<T> {
    let n = z.r.len() as int;
    let d0 = Waves { r: b.d_r, s: b.d_s };
    let in4 = Waves { r: share_of(b.d_r, dt, 6), s: share_of(b.d_s, dt, 6) };
    let b4 = drift_back(m, ahead(z, dt, k.k3), in4, fresh_of(b, n), n);
    let d1 = joined_of(d0, b4);
    let in3 = Waves {
        r: sums_of(share_of(b.d_r, dt, 3), carried_of(b4.d_r, dt)),
        s: sums_of(share_of(b.d_s, dt, 3), carried_of(b4.d_s, dt)),
    };
    let b3 = drift_back(m, halfway(z, dt, k.k2), in3, fresh_of(b4, n), n);
    let d2 = joined_of(d1, b3);
    let in2 = Waves {
        r: sums_of(share_of(b.d_r, dt, 3), half_carried_of(b3.d_r, dt)),
        s: sums_of(share_of(b.d_s, dt, 3), half_carried_of(b3.d_s, dt)),
    };
    let b2 = drift_back(m, halfway(z, dt, k.k1), in2, fresh_of(b3, n), n);
    let d3 = joined_of(d2, b2);
    let in1 = Waves {
        r: sums_of(share_of(b.d_r, dt, 6), half_carried_of(b2.d_r, dt)),
        s: sums_of(share_of(b.d_s, dt, 6), half_carried_of(b2.d_s, dt)),
    };
    let b1 = drift_back(m, z, in1, fresh_of(b2, n), n);
    let d4 = joined_of(d3, b1);
    Back { d_r: d4.r, d_s: d4.s, ..b1 }
}

fn share_on<T: Copy, A: Arith<T>>(ops: &A, d: &TracedVec<T>, dt: Traced<T>, q: u64) -> (out:
    TracedVec<T>)
    requires
        d.ok(*ops),
        dt.ok(*ops),
    ensures
        out.ok(*ops),
        out.e@ == share_of(d.e@, dt.e@, q),
{
    let n: usize = d.len();
    let ghost es = share_of(d.e@, dt.e@, q);
    let mut out: TracedVec<T> = TracedVec::new(ops);
    let mut i: usize = 0;
    assert(out.e@ =~= es.take(0));
    while i < n
        invariant
            d.ok(*ops),
            dt.ok(*ops),
            n == d.v@.len(),
            es == share_of(d.e@, dt.e@, q),
            i <= n,
            out.ok(*ops),
            out.e@ == es.take(i as int),
        decreases n - i,
    {
        out.push(ops, d.get(ops, i).times(ops, dt).over(ops, Traced::ratio(ops, q, 1)));
        i += 1;
        assert(out.e@ =~= es.take(i as int));
    }
    assert(es.take(n as int) =~= es);
    out
}

fn carried_on<T: Copy, A: Arith<T>>(ops: &A, d: &TracedVec<T>, dt: Traced<T>) -> (out: TracedVec<T>)
    requires
        d.ok(*ops),
        dt.ok(*ops),
    ensures
        out.ok(*ops),
        out.e@ == carried_of(d.e@, dt.e@),
{
    let n: usize = d.len();
    let ghost es = carried_of(d.e@, dt.e@);
    let mut out: TracedVec<T> = TracedVec::new(ops);
    let mut i: usize = 0;
    assert(out.e@ =~= es.take(0));
    while i < n
        invariant
            d.ok(*ops),
            dt.ok(*ops),
            n == d.v@.len(),
            es == carried_of(d.e@, dt.e@),
            i <= n,
            out.ok(*ops),
            out.e@ == es.take(i as int),
        decreases n - i,
    {
        out.push(ops, d.get(ops, i).times(ops, dt));
        i += 1;
        assert(out.e@ =~= es.take(i as int));
    }
    assert(es.take(n as int) =~= es);
    out
}

fn half_carried_on<T: Copy, A: Arith<T>>(ops: &A, d: &TracedVec<T>, dt: Traced<T>) -> (out:
    TracedVec<T>)
    requires
        d.ok(*ops),
        dt.ok(*ops),
    ensures
        out.ok(*ops),
        out.e@ == half_carried_of(d.e@, dt.e@),
{
    let n: usize = d.len();
    let ghost es = half_carried_of(d.e@, dt.e@);
    let mut out: TracedVec<T> = TracedVec::new(ops);
    let mut i: usize = 0;
    assert(out.e@ =~= es.take(0));
    while i < n
        invariant
            d.ok(*ops),
            dt.ok(*ops),
            n == d.v@.len(),
            es == half_carried_of(d.e@, dt.e@),
            i <= n,
            out.ok(*ops),
            out.e@ == es.take(i as int),
        decreases n - i,
    {
        out.push(ops, d.get(ops, i).times(ops, Traced::ratio(ops, 1, 2)).times(ops, dt));
        i += 1;
        assert(out.e@ =~= es.take(i as int));
    }
    assert(es.take(n as int) =~= es);
    out
}

/// The four slopes of a step, traced.
struct SlopeStates<T> {
    k1: State<T>,
    k2: State<T>,
    k3: State<T>,
    k4: State<T>,
}

impl<T: Copy> SlopeStates<T> {
    spec fn ok<A: Arith<T>>(&self, ops: A, n: int) -> bool {
        &&& self.k1.ok(ops, n)
        &&& self.k2.ok(ops, n)
        &&& self.k3.ok(ops, n)
        &&& self.k4.ok(ops, n)
    }

    spec fn slopes(&self) -> Slopes<T> {
        Slopes {
            k1: self.k1.waves(),
            k2: self.k2.waves(),
            k3: self.k3.waves(),
            k4: self.k4.waves(),
        }
    }
}

/// The gradients of parameters with none yet of the bands, traced.
fn fresh_on<T: Copy, A: Arith<T>>(
    ops: &A,
    d_gamma: TracedVec<T>,
    d_alpha: Traced<T>,
    d_beta: Traced<T>,
    n: usize,
) -> (out: BackState<T>)
    requires
        d_gamma.ok(*ops),
        d_gamma.v@.len() == n,
        d_alpha.ok(*ops),
        d_beta.ok(*ops),
    ensures
        out.ok(*ops, n as int),
        out.d_gamma.e@ == d_gamma.e@,
        out.d_alpha.e@ == d_alpha.e@,
        out.d_beta.e@ == d_beta.e@,
        out.d_r.e@ == Seq::new(n as nat, |i: int| zero::<T>()),
        out.d_s.e@ == Seq::new(n as nat, |i: int| zero::<T>()),
{
    BackState {
        d_r: TracedVec::zeros(ops, n),
        d_s: TracedVec::zeros(ops, n),
        d_gamma,
        d_alpha,
        d_beta,
    }
}

/// The way back through a step, traced.
fn step_back_on<T: Copy, A: Arith<T>>(
    ops: &A,
    m: &Params<T>,
    dt: Traced<T>,
    z: &State<T>,
    k: &SlopeStates<T>,
    b: BackState<T>,
) -> (out: BackState<T>)
    requires
        z.ok(*ops, z.r.v@.len() as int),
        k.ok(*ops, z.r.v@.len() as int),
        m.ok(*ops, z.r.v@.len() as int),
        dt.ok(*ops),
        b.ok(*ops, z.r.v@.len() as int),
        z.r.v@.len() <= usize::MAX - 2,
    ensures
        out.ok(*ops, z.r.v@.len() as int),
        out.back() == step_back(m.medium(), dt.e@, z.waves(), k.slopes(), b.back()),
{
    let n: usize = z.r.len();
    let ghost zw = z.waves();
    let ghost b0 = b.back();
    let ghost nn = n as int;
    let r6: TracedVec<T> = share_on(ops, &b.d_r, dt, 6);
    let s6: TracedVec<T> = share_on(ops, &b.d_s, dt, 6);
    let r3: TracedVec<T> = share_on(ops, &b.d_r, dt, 3);
    let s3: TracedVec<T> = share_on(ops, &b.d_s, dt, 3);
    let z4: State<T> = State {
        r: ahead_on(ops, &z.r, dt, &k.k3.r),
        s: ahead_on(ops, &z.s, dt, &k.k3.s),
    };
    assert(z4.waves() == ahead(zw, dt.e@, k.slopes().k3));
    let in4: State<T> = State { r: r6.clone_of(ops), s: s6.clone_of(ops) };
    let f4: BackState<T> = fresh_on(ops, b.d_gamma, b.d_alpha, b.d_beta, n);
    assert(f4.back() == fresh_of(b0, nn));
    let b4: BackState<T> = drift_back_on(ops, m, &z4, &in4, f4);
    let d1r: TracedVec<T> = sums_on(ops, &b.d_r, &b4.d_r);
    let d1s: TracedVec<T> = sums_on(ops, &b.d_s, &b4.d_s);
    let in3: State<T> = State {
        r: sums_on(ops, &r3, &carried_on(ops, &b4.d_r, dt)),
        s: sums_on(ops, &s3, &carried_on(ops, &b4.d_s, dt)),
    };
    let z3: State<T> = State {
        r: halfway_on(ops, &z.r, dt, &k.k2.r),
        s: halfway_on(ops, &z.s, dt, &k.k2.s),
    };
    assert(z3.waves() == halfway(zw, dt.e@, k.slopes().k2));
    let ghost b4b = b4.back();
    let f3: BackState<T> = fresh_on(ops, b4.d_gamma, b4.d_alpha, b4.d_beta, n);
    assert(f3.back() == fresh_of(b4b, nn));
    let b3: BackState<T> = drift_back_on(ops, m, &z3, &in3, f3);
    let d2r: TracedVec<T> = sums_on(ops, &d1r, &b3.d_r);
    let d2s: TracedVec<T> = sums_on(ops, &d1s, &b3.d_s);
    let in2: State<T> = State {
        r: sums_on(ops, &r3, &half_carried_on(ops, &b3.d_r, dt)),
        s: sums_on(ops, &s3, &half_carried_on(ops, &b3.d_s, dt)),
    };
    let z2: State<T> = State {
        r: halfway_on(ops, &z.r, dt, &k.k1.r),
        s: halfway_on(ops, &z.s, dt, &k.k1.s),
    };
    assert(z2.waves() == halfway(zw, dt.e@, k.slopes().k1));
    let ghost b3b = b3.back();
    let f2: BackState<T> = fresh_on(ops, b3.d_gamma, b3.d_alpha, b3.d_beta, n);
    assert(f2.back() == fresh_of(b3b, nn));
    let b2: BackState<T> = drift_back_on(ops, m, &z2, &in2, f2);
    let d3r: TracedVec<T> = sums_on(ops, &d2r, &b2.d_r);
    let d3s: TracedVec<T> = sums_on(ops, &d2s, &b2.d_s);
    let in1: State<T> = State {
        r: sums_on(ops, &r6, &half_carried_on(ops, &b2.d_r, dt)),
        s: sums_on(ops, &s6, &half_carried_on(ops, &b2.d_s, dt)),
    };
    let ghost b2b = b2.back();
    let f1: BackState<T> = fresh_on(ops, b2.d_gamma, b2.d_alpha, b2.d_beta, n);
    assert(f1.back() == fresh_of(b2b, nn));
    let b1: BackState<T> = drift_back_on(ops, m, z, &in1, f1);
    BackState {
        d_r: sums_on(ops, &d3r, &b1.d_r),
        d_s: sums_on(ops, &d3s, &b1.d_s),
        d_gamma: b1.d_gamma,
        d_alpha: b1.d_alpha,
        d_beta: b1.d_beta,
    }
}

/// The gradients of a layer's parameters.
pub struct OdeParamGrads<T> {
    pub d_gamma_raw: Vec<T>,
    pub d_alpha: T,
    pub d_beta: T,
}

/// The medium that a cache was made in.
pub open spec fn cached_medium<T>(c: OdeForwardCache<T>, w: KerrWeights<T>) -> Medium<T> {
    Medium {
        gamma: vals(c.gamma@),
        omega: vals(w.omega@),
        alpha: val(w.alpha),
        beta: val(w.beta),
        chi: zero(),
    }
}

/// The state before step `i` of a cache.
pub open spec fn cached_state<T>(c: OdeForwardCache<T>, i: int) -> Waves<T> {
    Waves { r: vals(c.r_at_step@[i]@), s: vals(c.s_at_step@[i]@) }
}

/// The slopes of step `i` of a cache.
pub open spec fn cached_slopes<T>(c: OdeForwardCache<T>, i: int) -> Slopes<T> {
    let (kr, ks) = (c.kr@[i], c.ks@[i]);
    Slopes {
        k1: Waves { r: vals(kr[0]@), s: vals(ks[0]@) },
        k2: Waves { r: vals(kr[1]@), s: vals(ks[1]@) },
        k3: Waves { r: vals(kr[2]@), s: vals(ks[2]@) },
        k4: Waves { r: vals(kr[3]@), s: vals(ks[3]@) },
    }
}

/// The gradients after the way back from the end down to step `i`.
pub open spec fn steps_back<T>(
    c: OdeForwardCache<T>,
    w: KerrWeights<T>,
    end: Back<T>,
    i: int,
) -> Back<T>
    decreases c.rk4_steps - i,
{
    if i >= c.rk4_steps {
        end
    } else {
        step_back(
            cached_medium(c, w),
            val(c.dt),
            cached_state(c, i),
            cached_slopes(c, i),
            steps_back(c, w, end, i + 1),
        )
    }
}

/// The gradients at the end of an integration: those of the output, none of parameters.
pub open spec fn end_back<T>(d_output: Seq<T>, n: int) -> Back<T> {
    let d = waves_of(vals(d_output), n);
    Back {
        d_r: d.r,
        d_s: d.s,
        d_gamma: Seq::new(n as nat, |i: int| zero::<T>()),
        d_alpha: zero(),
        d_beta: zero(),
    }
}

/// The gradients of a layer's input and parameters.
pub open spec fn ode_back<T>(
    d_output: Seq<T>,
    c: OdeForwardCache<T>,
    w: KerrWeights<T>,
) -> Back<T> {
    steps_back(c, w, end_back(d_output, c.n_bands as int), 0)
}

/// The gradients of raw dampings, out of those of the dampings.
pub open spec fn raw_of<T>(d_gamma: Seq<Expr<T>>, gamma_raw: Seq<T>) -> Seq<Expr<T>> {
    Seq::new(
        d_gamma.len(),
        |k: int| times(d_gamma[k], softplus_slope_of(val(gamma_raw[k]))),
    )
}

/// The gradients of raw dampings, traced.
pub fn raw_on<T: Copy, A: Arith<T>>(ops: &A, d_gamma: &TracedVec<T>, gamma_raw: &[T]) -> (out:
    TracedVec<T>)
    requires
        d_gamma.ok(*ops),
        d_gamma.v@.len() <= gamma_raw@.len(),
    ensures
        out.ok(*ops),
        out.e@ == raw_of(d_gamma.e@, gamma_raw@),
{
    let n: usize = d_gamma.len();
    let total: usize = gamma_raw.len();
    let ghost es = raw_of(d_gamma.e@, gamma_raw@);
    let mut out: TracedVec<T> = TracedVec::new(ops);
    let mut k: usize = 0;
    assert(out.e@ =~= es.take(0));
    while k < n
        invariant
            d_gamma.ok(*ops),
            n == d_gamma.v@.len(),
            total == gamma_raw@.len(),
            n <= total,
            es == raw_of(d_gamma.e@, gamma_raw@),
            k <= n,
            out.ok(*ops),
            out.e@ == es.take(k as int),
        decreases n - k,
    {
        let slope: Traced<T> = softplus_slope_on(ops, Traced::of(ops, gamma_raw[k]));
        out.push(ops, d_gamma.get(ops, k).times(ops, slope));
        k += 1;
        assert(out.e@ =~= es.take(k as int));
    }
    assert(es.take(n as int) =~= es);
    out
}

/// The gradients of a layer's input and parameters, out of those of its output.
pub fn ode_backward<T: Copy, A: Arith<T>>(
    ops: &A,
    d_output: &[T],
    cache: &OdeForwardCache<T>,
    weights: &KerrWeights<T>,
) -> (res: (Vec<T>, OdeParamGrads<T>))
    requires
        cache_shaped(*cache, *weights),
        2 * cache.n_bands <= d_output@.len(),
    ensures
        ({
            let b = ode_back(d_output@, *cache, *weights);
            &&& fits_all(*ops, woven_of(Waves { r: b.d_r, s: b.d_s }), res.0@)
            &&& fits_all(*ops, raw_of(b.d_gamma, weights.gamma_raw@), res.1.d_gamma_raw@)
            &&& fits(*ops, b.d_alpha, res.1.d_alpha)
            &&& fits(*ops, b.d_beta, res.1.d_beta)
        }),
{
    let n: usize = cache.n_bands;
    let dt: Traced<T> = Traced::of(ops, cache.dt);
    let m: Params<T> = Params {
        gamma: traced(ops, &cache.gamma),
        omega: traced(ops, &weights.omega),
        alpha: Traced::of(ops, weights.alpha),
        beta: Traced::of(ops, weights.beta),
        chi: Traced::ratio(ops, 0, 1),
    };
    assert(m.medium() == cached_medium(*cache, *weights));
    let d: State<T> = waves_on(ops, &traced(ops, d_output), n);
    let ghost end = end_back(d_output@, n as int);
    let mut b: BackState<T> = BackState {
        d_r: d.r,
        d_s: d.s,
        d_gamma: TracedVec::zeros(ops, n),
        d_alpha: Traced::ratio(ops, 0, 1),
        d_beta: Traced::ratio(ops, 0, 1),
    };
    assert(d.waves() == waves_of(vals(d_output@), n as int));
    assert(b.back() == end);
    let mut i: usize = cache.rk4_steps;
    while i > 0
        invariant
            cache_shaped(*cache, *weights),
            n == cache.n_bands,
            m.ok(*ops, n as int),
            m.medium() == cached_medium(*cache, *weights),
            dt.ok(*ops),
            dt.e@ == val(cache.dt),
            i <= cache.rk4_steps,
            b.ok(*ops, n as int),
            b.back() == steps_back(*cache, *weights, end, i as int),
        decreases i,
    {
        i -= 1;
        assert(entries_shaped(
            cache.r_at_step@,
            cache.s_at_step@,
            cache.kr@,
            cache.ks@,
            i as int,
            n as int,
        ));
        let z: State<T> = State {
            r: traced(ops, &cache.r_at_step[i]),
            s: traced(ops, &cache.s_at_step[i]),
        };
        let kr: &[Vec<T>; 4] = &cache.kr[i];
        let ks: &[Vec<T>; 4] = &cache.ks[i];
        let k: SlopeStates<T> = SlopeStates {
            k1: State { r: traced(ops, &kr[0]), s: traced(ops, &ks[0]) },
            k2: State { r: traced(ops, &kr[1]), s: traced(ops, &ks[1]) },
            k3: State { r: traced(ops, &kr[2]), s: traced(ops, &ks[2]) },
            k4: State { r: traced(ops, &kr[3]), s: traced(ops, &ks[3]) },
        };
        assert(z.waves() == cached_state(*cache, i as int));
        assert(k.slopes() == cached_slopes(*cache, i as int));
        assert(n <= usize::MAX - 2);
        b = step_back_on(ops, &m, dt, &z, &k, b);
    }
    let d_gamma_raw: TracedVec<T> = raw_on(ops, &b.d_gamma, &weights.gamma_raw);
    let back: State<T> = State { r: b.d_r, s: b.d_s };
    let d_input: TracedVec<T> = woven_on(ops, &back);
    (
        d_input.v,
        OdeParamGrads { d_gamma_raw: d_gamma_raw.v, d_alpha: b.d_alpha.v, d_beta: b.d_beta.v },
    )
}

} // verus!
