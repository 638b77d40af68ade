//! The Kerr ODE: its right-hand side, a step of the integrator, and the integration of a
//! state of waves.

use vstd::prelude::*;
use crate::arith::{Arith, Traced, TracedVec, total};
#[allow(unused_imports)]
use crate::arith::{
    Expr, Test, Unary, fits, fits_all, minus, one, over, pick, plus, test_is, times, total_of, un,
    val, vals, zero,
};
use crate::layers::{softplus_on, traced};
#[allow(unused_imports)]
use crate::layers::softplus_of;
use crate::ode::{Quartet, neighbours, quartets};
#[allow(unused_imports)]
use crate::ode::{neighbours_of, quartets_of, law_quartets_are_matched};
use crate::weights::KerrWeights;

verus! {

/// Formulas of the two components of every band.
pub struct Waves<T> {
    pub r: Seq<Expr<T>>,
    pub s: Seq<Expr<T>>,
}

/// Formulas of the parameters of the ODE.
pub struct Medium<T> {
    pub gamma: Seq<Expr<T>>,
    pub omega: Seq<Expr<T>>,
    pub alpha: Expr<T>,
    pub beta: Expr<T>,
    pub chi: Expr<T>,
}

/// Energy of a band.
pub open spec fn energy_of<T>(r: Expr<T>, s: Expr<T>) -> Expr<T> {
    plus(times(r, r), times(s, s))
}

/// The energies of the neighbours of band `k`.
pub open spec fn energies_around<T>(z: Waves<T>, k: int) -> Seq<Expr<T>> {
    neighbours_of(k, z.r.len() as int).map_values(
        |j: usize| energy_of(z.r[j as int], z.s[j as int]),
    )
}

/// The energy around band `k`.
pub open spec fn around_of<T>(z: Waves<T>, k: int) -> Expr<T> {
    total_of(energies_around(z, k))
}

/// The rate at which a band turns: its frequency, its own energy and the energy around it.
pub open spec fn turn_of<T>(
    omega: Expr<T>,
    alpha: Expr<T>,
    own: Expr<T>,
    beta: Expr<T>,
    around: Expr<T>,
) -> Expr<T> {
    plus(plus(omega, times(alpha, own)), times(beta, around))
}

/// `-gamma * r - phi * s`
pub open spec fn fall_of<T>(gamma: Expr<T>, r: Expr<T>, phi: Expr<T>, s: Expr<T>) -> Expr<T> {
    minus(times(un(Unary::Negated, gamma), r), times(phi, s))
}

/// `-gamma * s + phi * r`
pub open spec fn rise_of<T>(gamma: Expr<T>, s: Expr<T>, phi: Expr<T>, r: Expr<T>) -> Expr<T> {
    plus(times(un(Unary::Negated, gamma), s), times(phi, r))
}

/// The turn of band `k`.
pub open spec fn phi_of<T>(m: Medium<T>, z: Waves<T>, k: int) -> Expr<T> {
    turn_of(m.omega[k], m.alpha, energy_of(z.r[k], z.s[k]), m.beta, around_of(z, k))
}

/// Damping and turning of every band.
pub open spec fn drift_of<T>(m: Medium<T>, z: Waves<T>) -> Waves<T> {
    Waves {
        r: Seq::new(
            z.r.len(),
            |k: int| fall_of(m.gamma[k], z.r[k], phi_of(m, z, k), z.s[k]),
        ),
        s: Seq::new(
            z.r.len(),
            |k: int| rise_of(m.gamma[k], z.s[k], phi_of(m, z, k), z.r[k]),
        ),
    }
}

/// `a * b - c * d`
pub open spec fn cross_minus<T>(a: Expr<T>, b: Expr<T>, c: Expr<T>, d: Expr<T>) -> Expr<T> {
    minus(times(a, b), times(c, d))
}

/// `a * b + c * d`
pub open spec fn cross_plus<T>(a: Expr<T>, b: Expr<T>, c: Expr<T>, d: Expr<T>) -> Expr<T> {
    plus(times(a, b), times(c, d))
}

/// A slope with the gain `chi * g` added.
pub open spec fn gained<T>(x: Expr<T>, chi: Expr<T>, g: Expr<T>) -> Expr<T> {
    plus(x, times(chi, g))
}

/// A slope with the loss `chi * g` taken off.
pub open spec fn lost<T>(x: Expr<T>, chi: Expr<T>, g: Expr<T>) -> Expr<T> {
    minus(x, times(chi, g))
}

/// Slopes after the exchange of a quartet: the flow of `chi * Re(za zb zc* zd*)`.
pub open spec fn exchange_of<T>(chi: Expr<T>, z: Waves<T>, d: Waves<T>, q: Quartet) -> Waves<T> {
    let (ra, sa) = (z.r[q.a as int], z.s[q.a as int]);
    let (rb, sb) = (z.r[q.b as int], z.s[q.b as int]);
    let (rc, sc) = (z.r[q.c as int], z.s[q.c as int]);
    let (rd, sd) = (z.r[q.d as int], z.s[q.d as int]);
    let ab_re = cross_minus(ra, rb, sa, sb);
    let ab_im = cross_plus(ra, sb, sa, rb);
    let cd_re = cross_minus(rc, rd, sc, sd);
    let cd_im = cross_plus(rc, sd, sc, rd);
    Waves {
        r: d.r.update(
            q.a as int,
            gained(d.r[q.a as int], chi, cross_minus(rb, cd_im, sb, cd_re)),
        ).update(q.b as int, gained(d.r[q.b as int], chi, cross_minus(ra, cd_im, sa, cd_re))).update(
            q.c as int,
            gained(d.r[q.c as int], chi, cross_minus(ab_im, rd, ab_re, sd)),
        ).update(q.d as int, gained(d.r[q.d as int], chi, cross_minus(ab_im, rc, ab_re, sc))),
        s: d.s.update(
            q.a as int,
            lost(d.s[q.a as int], chi, cross_plus(rb, cd_re, sb, cd_im)),
        ).update(q.b as int, lost(d.s[q.b as int], chi, cross_plus(ra, cd_re, sa, cd_im))).update(
            q.c as int,
            lost(d.s[q.c as int], chi, cross_plus(ab_re, rd, ab_im, sd)),
        ).update(q.d as int, lost(d.s[q.d as int], chi, cross_plus(ab_re, rc, ab_im, sc))),
    }
}

/// Slopes after the exchanges of the first `n` quartets.
pub open spec fn mixed_of<T>(
    chi: Expr<T>,
    z: Waves<T>,
    d: Waves<T>,
    qs: Seq<Quartet>,
    n: int,
) -> Waves<T>
    decreases n,
{
    if n <= 0 {
        d
    } else {
        exchange_of(chi, z, mixed_of(chi, z, d, qs, n - 1), qs[n - 1])
    }
}

/// Slopes with four-wave mixing.
pub open spec fn mixing_of<T>(m: Medium<T>, z: Waves<T>) -> Waves<T> {
    let qs = quartets_of(z.r.len() as int);
    mixed_of(m.chi, z, drift_of(m, z), qs, qs.len() as int)
}

/// The right-hand side of the ODE. Four-wave mixing takes more than four bands and a
/// strength that is not zero.
pub open spec fn derivative_of<T>(m: Medium<T>, z: Waves<T>) -> Waves<T> {
    let d = drift_of(m, z);
    if z.r.len() <= 4 {
        d
    } else {
        let x = mixing_of(m, z);
        Waves {
            r: Seq::new(z.r.len(), |k: int| pick(Test::Equals, m.chi, zero(), d.r[k], x.r[k])),
            s: Seq::new(z.r.len(), |k: int| pick(Test::Equals, m.chi, zero(), d.s[k], x.s[k])),
        }
    }
}

/// Components half a step ahead along slopes.
pub open spec fn halfway_of<T>(x: Seq<Expr<T>>, dt: Expr<T>, k: Seq<Expr<T>>) -> Seq<Expr<T>> {
    Seq::new(x.len(), |i: int| plus(x[i], times(times(Expr::Ratio(1, 2), dt), k[i])))
}

/// Components a step ahead along slopes.
pub open spec fn ahead_of<T>(x: Seq<Expr<T>>, dt: Expr<T>, k: Seq<Expr<T>>) -> Seq<Expr<T>> {
    Seq::new(x.len(), |i: int| plus(x[i], times(dt, k[i])))
}

/// A state half a step ahead.
pub open spec fn halfway<T>(z: Waves<T>, dt: Expr<T>, k: Waves<T>) -> Waves<T> {
    Waves { r: halfway_of(z.r, dt, k.r), s: halfway_of(z.s, dt, k.s) }
}

/// A state a step ahead.
pub open spec fn ahead<T>(z: Waves<T>, dt: Expr<T>, k: Waves<T>) -> Waves<T> {
    Waves { r: ahead_of(z.r, dt, k.r), s: ahead_of(z.s, dt, k.s) }
}

/// Components a step ahead along four weighted slopes.
pub open spec fn blend_of<T>(
    x: Seq<Expr<T>>,
    dt: Expr<T>,
    w: Seq<Expr<T>>,
    k1: Seq<Expr<T>>,
    k2: Seq<Expr<T>>,
    k3: Seq<Expr<T>>,
    k4: Seq<Expr<T>>,
) -> Seq<Expr<T>> {
    Seq::new(
        x.len(),
        |i: int|
            plus(
                x[i],
                times(
                    dt,
                    plus(
                        plus(plus(times(w[0], k1[i]), times(w[1], k2[i])), times(w[2], k3[i])),
                        times(w[3], k4[i]),
                    ),
                ),
            ),
    )
}

/// A step of the integrator.
pub open spec fn step_of<T>(
    m: Medium<T>,
    dt: Expr<T>,
    w: Seq<Expr<T>>,
    z: Waves<T>,
) -> Waves<T> {
    let k1 = derivative_of(m, z);
    let k2 = derivative_of(m, halfway(z, dt, k1));
    let k3 = derivative_of(m, halfway(z, dt, k2));
    let k4 = derivative_of(m, ahead(z, dt, k3));
    Waves {
        r: blend_of(z.r, dt, w, k1.r, k2.r, k3.r, k4.r),
        s: blend_of(z.s, dt, w, k1.s, k2.s, k3.s, k4.s),
    }
}

/// The state after `n` steps.
pub open spec fn steps_of<T>(
    m: Medium<T>,
    dt: Expr<T>,
    w: Seq<Expr<T>>,
    z: Waves<T>,
    n: int,
) -> Waves<T>
    decreases n,
{
    if n <= 0 {
        z
    } else {
        step_of(m, dt, w, steps_of(m, dt, w, z, n - 1))
    }
}

/// Two components per band, traced.
pub struct State<T> {
    pub r: TracedVec<T>,
    pub s: TracedVec<T>,
}

impl<T: Copy> State<T> {
    /// Traced, with `n` bands.
    pub open spec fn ok<A: Arith<T>>(&self, ops: A, n: int) -> bool {
        &&& self.r.ok(ops)
        &&& self.s.ok(ops)
        &&& self.r.v@.len() == n
        &&& self.s.v@.len() == n
    }

    /// The formulas of the components.
    pub open spec fn waves(&self) -> Waves<T> {
        Waves { r: self.r.e@, s: self.s.e@ }
    }
}

/// The parameters of the ODE, traced.
pub struct Params<T> {
    pub gamma: TracedVec<T>,
    pub omega: TracedVec<T>,
    pub alpha: Traced<T>,
    pub beta: Traced<T>,
    pub chi: Traced<T>,
}

impl<T: Copy> Params<T> {
    /// Traced, for at least `n` bands.
    pub open spec fn ok<A: Arith<T>>(&self, ops: A, n: int) -> bool {
        &&& self.gamma.ok(ops)
        &&& self.omega.ok(ops)
        &&& self.alpha.ok(ops)
        &&& self.beta.ok(ops)
        &&& self.chi.ok(ops)
        &&& n <= self.gamma.v@.len()
        &&& n <= self.omega.v@.len()
    }

    /// The formulas of the parameters.
    pub open spec fn medium(&self) -> Medium<T> {
        Medium {
            gamma: self.gamma.e@,
            omega: self.omega.e@,
            alpha: self.alpha.e@,
            beta: self.beta.e@,
            chi: self.chi.e@,
        }
    }
}

/// Energy of a band, traced.
pub fn energy_on<T: Copy, A: Arith<T>>(ops: &A, r: Traced<T>, s: Traced<T>) -> (out: Traced<T>)
    requires
        r.ok(*ops),
        s.ok(*ops),
    ensures
        out.ok(*ops),
        out.e@ == energy_of(r.e@, s.e@),
{
    r.times(ops, r).plus(ops, s.times(ops, s))
}

/// The energy around band `k`, traced.
pub fn around_on<T: Copy, A: Arith<T>>(ops: &A, z: &State<T>, k: usize) -> (out: Traced<T>)
    requires
        z.ok(*ops, z.r.v@.len() as int),
        k < z.r.v@.len(),
        z.r.v@.len() <= usize::MAX - 2,
    ensures
        out.ok(*ops),
        out.e@ == around_of(z.waves(), k as int),
{
    let n: usize = z.r.len();
    let near: Vec<usize> = neighbours(k, n);
    let count: usize = near.len();
    let ghost es = energies_around(z.waves(), k as int);
    let mut list: TracedVec<T> = TracedVec::new(ops);
    let mut i: usize = 0;
    assert(list.e@ =~= es.take(0));
    while i < count
        invariant
            z.ok(*ops, n as int),
            k < n,
            count == near@.len(),
            near@ == neighbours_of(k as int, n as int),
            es == energies_around(z.waves(), k as int),
            i <= count,
            list.ok(*ops),
            list.e@ == es.take(i as int),
        decreases count - i,
    {
        let j: usize = near[i];
        assert(j < n);
        list.push(ops, energy_on(ops, z.r.get(ops, j), z.s.get(ops, j)));
        i += 1;
        assert(list.e@ =~= es.take(i as int));
    }
    assert(list.e@ =~= es);
    total(ops, &list)
}

/// Damping and turning of every band, traced.
pub fn drift_on<T: Copy, A: Arith<T>>(ops: &A, m: &Params<T>, z: &State<T>) -> (out: State<T>)
    requires
        z.ok(*ops, z.r.v@.len() as int),
        m.ok(*ops, z.r.v@.len() as int),
        z.r.v@.len() <= usize::MAX - 2,
    ensures
        out.ok(*ops, z.r.v@.len() as int),
        out.waves() == drift_of(m.medium(), z.waves()),
{
    let n: usize = z.r.len();
    let ghost d = drift_of(m.medium(), z.waves());
    let mut dr: TracedVec<T> = TracedVec::new(ops);
    let mut ds: TracedVec<T> = TracedVec::new(ops);
    let mut k: usize = 0;
    assert(dr.e@ =~= d.r.take(0));
    assert(ds.e@ =~= d.s.take(0));
    while k < n
        invariant
            z.ok(*ops, n as int),
            m.ok(*ops, n as int),
            n <= usize::MAX - 2,
            d == drift_of(m.medium(), z.waves()),
            k <= n,
            dr.ok(*ops),
            ds.ok(*ops),
            dr.e@ == d.r.take(k as int),
            ds.e@ == d.s.take(k as int),
        decreases n - k,
    {
        let r: Traced<T> = z.r.get(ops, k);
        let s: Traced<T> = z.s.get(ops, k);
        let own: Traced<T> = energy_on(ops, r, s);
        let near: Traced<T> = around_on(ops, z, k);
        let phi: Traced<T> = m.omega.get(ops, k).plus(ops, m.alpha.times(ops, own)).plus(
            ops,
            m.beta.times(ops, near),
        );
        let loss: Traced<T> = m.gamma.get(ops, k).negated(ops);
        dr.push(ops, loss.times(ops, r).minus(ops, phi.times(ops, s)));
        ds.push(ops, loss.times(ops, s).plus(ops, phi.times(ops, r)));
        k += 1;
        assert(dr.e@ =~= d.r.take(k as int));
        assert(ds.e@ =~= d.s.take(k as int));
    }
    assert(dr.e@ =~= d.r);
    assert(ds.e@ =~= d.s);
    State { r: dr, s: ds }
}

/// `a * b - c * d`, traced.
pub fn cross_minus_on<T: Copy, A: Arith<T>>(
    ops: &A,
    a: Traced<T>,
    b: Traced<T>,
    c: Traced<T>,
    d: Traced<T>,
) -> (out: Traced<T>)
    requires
        a.ok(*ops),
        b.ok(*ops),
        c.ok(*ops),
        d.ok(*ops),
    ensures
        out.ok(*ops),
        out.e@ == cross_minus(a.e@, b.e@, c.e@, d.e@),
{
    a.times(ops, b).minus(ops, c.times(ops, d))
}

/// `a * b + c * d`, traced.
pub fn cross_plus_on<T: Copy, A: Arith<T>>(
    ops: &A,
    a: Traced<T>,
    b: Traced<T>,
    c: Traced<T>,
    d: Traced<T>,
) -> (out: Traced<T>)
    requires
        a.ok(*ops),
        b.ok(*ops),
        c.ok(*ops),
        d.ok(*ops),
    ensures
        out.ok(*ops),
        out.e@ == cross_plus(a.e@, b.e@, c.e@, d.e@),
{
    a.times(ops, b).plus(ops, c.times(ops, d))
}

/// Entries with a gain added at one place, traced.
pub fn gain<T: Copy, A: Arith<T>>(
    ops: &A,
    x: &mut TracedVec<T>,
    i: usize,
    chi: Traced<T>,
    g: Traced<T>,
)
    requires
        old(x).ok(*ops),
        chi.ok(*ops),
        g.ok(*ops),
        i < old(x).v@.len(),
    ensures
        final(x).ok(*ops),
        final(x).v@.len() == old(x).v@.len(),
        final(x).e@ == old(x).e@.update(i as int, gained(old(x).e@[i as int], chi.e@, g.e@)),
{
    let y: Traced<T> = x.get(ops, i).plus(ops, chi.times(ops, g));
    x.set(ops, i, y);
}

fn lose<T: Copy, A: Arith<T>>(
    ops: &A,
    x: &mut TracedVec<T>,
    i: usize,
    chi: Traced<T>,
    g: Traced<T>,
)
    requires
        old(x).ok(*ops),
        chi.ok(*ops),
        g.ok(*ops),
        i < old(x).v@.len(),
    ensures
        final(x).ok(*ops),
        final(x).v@.len() == old(x).v@.len(),
        final(x).e@ == old(x).e@.update(i as int, lost(old(x).e@[i as int], chi.e@, g.e@)),
{
    let y: Traced<T> = x.get(ops, i).minus(ops, chi.times(ops, g));
    x.set(ops, i, y);
}

/// The exchange of a quartet, traced.
fn exchange_on<T: Copy, A: Arith<T>>(
    ops: &A,
    chi: Traced<T>,
    z: &State<T>,
    d: State<T>,
    q: Quartet,
) -> (out: State<T>)
    requires
        chi.ok(*ops),
        z.ok(*ops, z.r.v@.len() as int),
        d.ok(*ops, z.r.v@.len() as int),
        q.a < q.c < q.d < q.b < z.r.v@.len(),
    ensures
        out.ok(*ops, z.r.v@.len() as int),
        out.waves() == exchange_of(chi.e@, z.waves(), d.waves(), q),
{
    let (ra, sa) = (z.r.get(ops, q.a), z.s.get(ops, q.a));
    let (rb, sb) = (z.r.get(ops, q.b), z.s.get(ops, q.b));
    let (rc, sc) = (z.r.get(ops, q.c), z.s.get(ops, q.c));
    let (rd, sd) = (z.r.get(ops, q.d), z.s.get(ops, q.d));
    let ab_re: Traced<T> = cross_minus_on(ops, ra, rb, sa, sb);
    let ab_im: Traced<T> = cross_plus_on(ops, ra, sb, sa, rb);
    let cd_re: Traced<T> = cross_minus_on(ops, rc, rd, sc, sd);
    let cd_im: Traced<T> = cross_plus_on(ops, rc, sd, sc, rd);
    let mut dr: TracedVec<T> = d.r;
    let mut ds: TracedVec<T> = d.s;
    gain(ops, &mut dr, q.a, chi, cross_minus_on(ops, rb, cd_im, sb, cd_re));
    lose(ops, &mut ds, q.a, chi, cross_plus_on(ops, rb, cd_re, sb, cd_im));
    gain(ops, &mut dr, q.b, chi, cross_minus_on(ops, ra, cd_im, sa, cd_re));
    lose(ops, &mut ds, q.b, chi, cross_plus_on(ops, ra, cd_re, sa, cd_im));
    gain(ops, &mut dr, q.c, chi, cross_minus_on(ops, ab_im, rd, ab_re, sd));
    lose(ops, &mut ds, q.c, chi, cross_plus_on(ops, ab_re, rd, ab_im, sd));
    gain(ops, &mut dr, q.d, chi, cross_minus_on(ops, ab_im, rc, ab_re, sc));
    lose(ops, &mut ds, q.d, chi, cross_plus_on(ops, ab_re, rc, ab_im, sc));
    State { r: dr, s: ds }
}

/// The right-hand side of the ODE, traced.
pub fn derivative_on<T: Copy, A: Arith<T>>(ops: &A, m: &Params<T>, z: &State<T>) -> (out: State<T>)
    requires
        z.ok(*ops, z.r.v@.len() as int),
        m.ok(*ops, z.r.v@.len() as int),
        z.r.v@.len() <= usize::MAX - 2,
    ensures
        out.ok(*ops, z.r.v@.len() as int),
        out.waves() == derivative_of(m.medium(), z.waves()),
{
    let n: usize = z.r.len();
    let ghost zw = z.waves();
    let ghost base = drift_of(m.medium(), zw);
    let mut d: State<T> = drift_on(ops, m, z);
    if n <= 4 {
        return d;
    }
    let nought: Traced<T> = Traced::ratio(ops, 0, 1);
    let off: bool = ops.equals(m.chi.v, nought.v);
    assert(test_is(*ops, Test::Equals, m.chi.v, nought.v, off));
    let ghost want = derivative_of(m.medium(), zw);
    if !off {
        let qs: Vec<Quartet> = quartets(n);
        let count: usize = qs.len();
        let mut i: usize = 0;
        while i < count
            invariant
                z.ok(*ops, n as int),
                m.ok(*ops, n as int),
                zw == z.waves(),
                count == qs@.len(),
                qs@ == quartets_of(n as int),
                i <= count,
                d.ok(*ops, n as int),
                d.waves() == mixed_of(m.chi.e@, zw, base, qs@, i as int),
            decreases count - i,
        {
            proof {
                law_quartets_are_matched(n, i as int);
            }
            d = exchange_on(ops, m.chi, z, d, qs[i]);
            i += 1;
        }
        assert(d.waves() == mixing_of(m.medium(), zw));
    }
    proof {
        let x = mixing_of(m.medium(), zw);
        assert forall|k: int| 0 <= k < n implies fits(*ops, want.r[k], #[trigger] d.r.v@[k]) by {
            assert(fits(*ops, d.r.e@[k], d.r.v@[k]));
        }
        assert forall|k: int| 0 <= k < n implies fits(*ops, want.s[k], #[trigger] d.s.v@[k]) by {
            assert(fits(*ops, d.s.e@[k], d.s.v@[k]));
        }
    }
    State {
        r: TracedVec { v: d.r.v, e: Ghost(want.r) },
        s: TracedVec { v: d.s.v, e: Ghost(want.s) },
    }
}

/// Components half a step ahead, traced.
pub fn halfway_on<T: Copy, A: Arith<T>>(
    ops: &A,
    x: &TracedVec<T>,
    dt: Traced<T>,
    k: &TracedVec<T>,
) -> (out: TracedVec<T>)
    requires
        x.ok(*ops),
        dt.ok(*ops),
        k.ok(*ops),
        x.v@.len() <= k.v@.len(),
    ensures
        out.ok(*ops),
        out.e@ == halfway_of(x.e@, dt.e@, k.e@),
{
    let n: usize = x.len();
    let m: usize = k.len();
    let half: Traced<T> = Traced::ratio(ops, 1, 2).times(ops, dt);
    let ghost es = halfway_of(x.e@, dt.e@, k.e@);
    let mut out: TracedVec<T> = TracedVec::new(ops);
    let mut i: usize = 0;
    assert(out.e@ =~= es.take(0));
    while i < n
        invariant
            x.ok(*ops),
            k.ok(*ops),
            half.ok(*ops),
            half.e@ == times(Expr::Ratio(1, 2), dt.e@),
            n == x.v@.len(),
            m == k.v@.len(),
            n <= m,
            es == halfway_of(x.e@, dt.e@, k.e@),
            i <= n,
            out.ok(*ops),
            out.e@ == es.take(i as int),
        decreases n - i,
    {
        out.push(ops, x.get(ops, i).plus(ops, half.times(ops, k.get(ops, i))));
        i += 1;
        assert(out.e@ =~= es.take(i as int));
    }
    assert(es.take(n as int) =~= es);
    out
}

/// Components a step ahead, traced.
pub fn ahead_on<T: Copy, A: Arith<T>>(
    ops: &A,
    x: &TracedVec<T>,
    dt: Traced<T>,
    k: &TracedVec<T>,
) -> (out: TracedVec<T>)
    requires
        x.ok(*ops),
        dt.ok(*ops),
        k.ok(*ops),
        x.v@.len() <= k.v@.len(),
    ensures
        out.ok(*ops),
        out.e@ == ahead_of(x.e@, dt.e@, k.e@),
{
    let n: usize = x.len();
    let m: usize = k.len();
    let ghost es = ahead_of(x.e@, dt.e@, k.e@);
    let mut out: TracedVec<T> = TracedVec::new(ops);
    let mut i: usize = 0;
    assert(out.e@ =~= es.take(0));
    while i < n
        invariant
            x.ok(*ops),
            k.ok(*ops),
            dt.ok(*ops),
            n == x.v@.len(),
            m == k.v@.len(),
            n <= m,
            es == ahead_of(x.e@, dt.e@, k.e@),
            i <= n,
            out.ok(*ops),
            out.e@ == es.take(i as int),
        decreases n - i,
    {
        out.push(ops, x.get(ops, i).plus(ops, dt.times(ops, k.get(ops, i))));
        i += 1;
        assert(out.e@ =~= es.take(i as int));
    }
    assert(es.take(n as int) =~= es);
    out
}

fn blend_on<T: Copy, A: Arith<T>>(
    ops: &A,
    x: &TracedVec<T>,
    dt: Traced<T>,
    w: &TracedVec<T>,
    k1: &TracedVec<T>,
    k2: &TracedVec<T>,
    k3: &TracedVec<T>,
    k4: &TracedVec<T>,
) -> (out: TracedVec<T>)
    requires
        x.ok(*ops),
        dt.ok(*ops),
        w.ok(*ops),
        w.v@.len() == 4,
        k1.ok(*ops),
        k2.ok(*ops),
        k3.ok(*ops),
        k4.ok(*ops),
        k1.v@.len() == x.v@.len(),
        k2.v@.len() == x.v@.len(),
        k3.v@.len() == x.v@.len(),
        k4.v@.len() == x.v@.len(),
    ensures
        out.ok(*ops),
        out.e@ == blend_of(x.e@, dt.e@, w.e@, k1.e@, k2.e@, k3.e@, k4.e@),
{
    let n: usize = x.len();
    let ghost es = blend_of(x.e@, dt.e@, w.e@, k1.e@, k2.e@, k3.e@, k4.e@);
    let mut out: TracedVec<T> = TracedVec::new(ops);
    let mut i: usize = 0;
    assert(out.e@ =~= es.take(0));
    while i < n
        invariant
            x.ok(*ops),
            dt.ok(*ops),
            w.ok(*ops),
            w.v@.len() == 4,
            k1.ok(*ops),
            k2.ok(*ops),
            k3.ok(*ops),
            k4.ok(*ops),
            n == x.v@.len(),
            k1.v@.len() == n,
            k2.v@.len() == n,
            k3.v@.len() == n,
            k4.v@.len() == n,
            es == blend_of(x.e@, dt.e@, w.e@, k1.e@, k2.e@, k3.e@, k4.e@),
            i <= n,
            out.ok(*ops),
            out.e@ == es.take(i as int),
        decreases n - i,
    {
        let sum: Traced<T> = w.get(ops, 0).times(ops, k1.get(ops, i)).plus(
            ops,
            w.get(ops, 1).times(ops, k2.get(ops, i)),
        ).plus(ops, w.get(ops, 2).times(ops, k3.get(ops, i))).plus(
            ops,
            w.get(ops, 3).times(ops, k4.get(ops, i)),
        );
        out.push(ops, x.get(ops, i).plus(ops, dt.times(ops, sum)));
        i += 1;
        assert(out.e@ =~= es.take(i as int));
    }
    assert(es.take(n as int) =~= es);
    out
}

/// A step of the integrator, traced.
pub fn step_on<T: Copy, A: Arith<T>>(
    ops: &A,
    m: &Params<T>,
    dt: Traced<T>,
    w: &TracedVec<T>,
    z: &State<T>,
) -> (out: State<T>)
    requires
        z.ok(*ops, z.r.v@.len() as int),
        m.ok(*ops, z.r.v@.len() as int),
        dt.ok(*ops),
        w.ok(*ops),
        w.v@.len() == 4,
        z.r.v@.len() <= usize::MAX - 2,
    ensures
        out.ok(*ops, z.r.v@.len() as int),
        out.waves() == step_of(m.medium(), dt.e@, w.e@, z.waves()),
{
    let k1: State<T> = derivative_on(ops, m, z);
    let z2: State<T> = State {
        r: halfway_on(ops, &z.r, dt, &k1.r),
        s: halfway_on(ops, &z.s, dt, &k1.s),
    };
    assert(z2.waves() == halfway(z.waves(), dt.e@, k1.waves()));
    let k2: State<T> = derivative_on(ops, m, &z2);
    let z3: State<T> = State {
        r: halfway_on(ops, &z.r, dt, &k2.r),
        s: halfway_on(ops, &z.s, dt, &k2.s),
    };
    assert(z3.waves() == halfway(z.waves(), dt.e@, k2.waves()));
    let k3: State<T> = derivative_on(ops, m, &z3);
    let z4: State<T> = State {
        r: ahead_on(ops, &z.r, dt, &k3.r),
        s: ahead_on(ops, &z.s, dt, &k3.s),
    };
    assert(z4.waves() == ahead(z.waves(), dt.e@, k3.waves()));
    let k4: State<T> = derivative_on(ops, m, &z4);
    State {
        r: blend_on(ops, &z.r, dt, w, &k1.r, &k2.r, &k3.r, &k4.r),
        s: blend_on(ops, &z.s, dt, w, &k1.s, &k2.s, &k3.s, &k4.s),
    }
}

/// The waves of a vector: two components per band, one after the other.
pub open spec fn waves_of<T>(x: Seq<Expr<T>>, n: int) -> Waves<T> {
    Waves {
        r: Seq::new(n as nat, |k: int| x[2 * k]),
        s: Seq::new(n as nat, |k: int| x[2 * k + 1]),
    }
}

/// The vector of waves.
pub open spec fn woven_of<T>(z: Waves<T>) -> Seq<Expr<T>> {
    Seq::new(
        2 * z.r.len(),
        |i: int|
            if i % 2 == 0 {
                z.r[i / 2]
            } else {
                z.s[i / 2]
            },
    )
}

/// Offsets of a wave memory.
pub struct Offsets<T> {
    pub r: Vec<T>,
    pub s: Vec<T>,
}

/// Components with the offsets added, as far as there are any.
pub open spec fn shifted_of<T>(x: Seq<Expr<T>>, offsets: Seq<T>, upto: int) -> Seq<Expr<T>> {
    Seq::new(
        x.len(),
        |k: int|
            if k < upto {
                plus(x[k], val(offsets[k]))
            } else {
                x[k]
            },
    )
}

/// The waves that an integration starts from: the input's, with the memory's offsets added.
pub open spec fn start_of<T>(z: Waves<T>, memory: Option<&Offsets<T>>) -> Waves<T> {
    match memory {
        Some(m) => Waves {
            r: shifted_of(z.r, m.r@, m.r@.len() as int),
            s: shifted_of(z.s, m.s@, m.r@.len() as int),
        },
        None => z,
    }
}

/// The medium of a layer, with `chi` as the strength of four-wave mixing.
pub open spec fn medium_of<T>(w: KerrWeights<T>, chi: Expr<T>) -> Medium<T> {
    Medium {
        gamma: Seq::new(w.gamma_raw@.len(), |k: int| softplus_of(val(w.gamma_raw@[k]))),
        omega: vals(w.omega@),
        alpha: val(w.alpha),
        beta: val(w.beta),
        chi,
    }
}

/// The length of a layer's steps.
pub open spec fn dt_of<T>(w: KerrWeights<T>) -> Expr<T> {
    over(one(), Expr::Count(w.rk4_n_steps))
}

/// The waves at the end of a layer's integration of `x`.
pub open spec fn final_of<T>(
    w: KerrWeights<T>,
    chi: Expr<T>,
    x: Seq<Expr<T>>,
    memory: Option<&Offsets<T>>,
) -> Waves<T> {
    steps_of(
        medium_of(w, chi),
        dt_of(w),
        vals(w.rk4_weights@),
        start_of(waves_of(x, w.gamma_raw@.len() as int), memory),
        w.rk4_n_steps as int,
    )
}

/// An input with the memory's offsets added to its components.
pub open spec fn shifted_input<T>(x: Seq<Expr<T>>, m: Offsets<T>) -> Seq<Expr<T>> {
    Seq::new(
        x.len(),
        |i: int|
            if i / 2 >= m.r@.len() {
                x[i]
            } else if i % 2 == 0 {
                plus(x[i], val(m.r@[i / 2]))
            } else {
                plus(x[i], val(m.s@[i / 2]))
            },
    )
}

/// A memory is a shift of the input: to integrate with one is to integrate the shifted input
/// without any.
pub proof fn law_memory_shifts_the_input<T>(
    w: KerrWeights<T>,
    chi: Expr<T>,
    x: Seq<Expr<T>>,
    m: Offsets<T>,
)
    requires
        2 * w.gamma_raw@.len() <= x.len(),
    ensures
        final_of(w, chi, x, Some(&m)) == final_of(w, chi, shifted_input(x, m), None),
        kerr_of(w, x, Some(&m)) == kerr_of(w, shifted_input(x, m), None),
{
    let n = w.gamma_raw@.len() as int;
    let y = shifted_input(x, m);
    assert forall|c: Expr<T>| #[trigger]
        final_of(w, c, x, Some(&m)) == final_of(w, c, y, None) by {
        let a = start_of(waves_of(x, n), Some(&m));
        let b = start_of(waves_of(y, n), None);
        assert forall|k: int| 0 <= k < n implies #[trigger] a.r[k] == b.r[k] by {
            assert((2 * k) / 2 == k && (2 * k) % 2 == 0);
        }
        assert forall|k: int| 0 <= k < n implies #[trigger] a.s[k] == b.s[k] by {
            assert((2 * k + 1) / 2 == k && (2 * k + 1) % 2 == 1);
        }
        assert(a.r =~= b.r);
        assert(a.s =~= b.s);
    }
}

/// What a layer's integration makes of `x`.
pub open spec fn kerr_of<T>(
    w: KerrWeights<T>,
    x: Seq<Expr<T>>,
    memory: Option<&Offsets<T>>,
) -> Seq<Expr<T>> {
    woven_of(final_of(w, val(w.chi), x, memory))
}

/// A layer whose parameters cover its bands, of which there are `n`.
pub open spec fn kerr_shaped<T>(w: KerrWeights<T>, n: int) -> bool {
    &&& w.gamma_raw@.len() == n
    &&& n <= w.omega@.len()
    &&& 2 * n <= usize::MAX
}

/// Offsets whose second components cover the first, as far as there are bands.
pub open spec fn offsets_cover<T>(memory: Option<&Offsets<T>>, n: int) -> bool {
    memory matches Some(m) ==> (m.r@.len() <= m.s@.len() || n <= m.s@.len())
}

/// The waves of a vector, traced.
pub fn waves_on<T: Copy, A: Arith<T>>(ops: &A, x: &TracedVec<T>, n: usize) -> (out: State<T>)
    requires
        x.ok(*ops),
        2 * n <= x.v@.len(),
    ensures
        out.ok(*ops, n as int),
        out.waves() == waves_of(x.e@, n as int),
{
    let total: usize = x.len();
    let ghost z = waves_of(x.e@, n as int);
    let mut r: TracedVec<T> = TracedVec::new(ops);
    let mut s: TracedVec<T> = TracedVec::new(ops);
    let mut k: usize = 0;
    assert(r.e@ =~= z.r.take(0));
    assert(s.e@ =~= z.s.take(0));
    while k < n
        invariant
            x.ok(*ops),
            total == x.v@.len(),
            2 * n <= total,
            z == waves_of(x.e@, n as int),
            k <= n,
            r.ok(*ops),
            s.ok(*ops),
            r.e@ == z.r.take(k as int),
            s.e@ == z.s.take(k as int),
        decreases n - k,
    {
        r.push(ops, x.get(ops, k * 2));
        s.push(ops, x.get(ops, k * 2 + 1));
        k += 1;
        assert(r.e@ =~= z.r.take(k as int));
        assert(s.e@ =~= z.s.take(k as int));
    }
    assert(z.r.take(n as int) =~= z.r);
    assert(z.s.take(n as int) =~= z.s);
    State { r, s }
}

fn shifted_on<T: Copy, A: Arith<T>>(
    ops: &A,
    x: &TracedVec<T>,
    offsets: &[T],
    upto: usize,
) -> (out: TracedVec<T>)
    requires
        x.ok(*ops),
        upto <= offsets@.len() || x.v@.len() <= offsets@.len(),
    ensures
        out.ok(*ops),
        out.e@ == shifted_of(x.e@, offsets@, upto as int),
{
    let n: usize = x.len();
    let total: usize = offsets.len();
    let ghost es = shifted_of(x.e@, offsets@, upto as int);
    let mut out: TracedVec<T> = TracedVec::new(ops);
    let mut k: usize = 0;
    assert(out.e@ =~= es.take(0));
    while k < n
        invariant
            x.ok(*ops),
            n == x.v@.len(),
            total == offsets@.len(),
            upto <= total || n <= total,
            es == shifted_of(x.e@, offsets@, upto as int),
            k <= n,
            out.ok(*ops),
            out.e@ == es.take(k as int),
        decreases n - k,
    {
        if k < upto {
            out.push(ops, x.get(ops, k).plus(ops, Traced::of(ops, offsets[k])));
        } else {
            out.push(ops, x.get(ops, k));
        }
        k += 1;
        assert(out.e@ =~= es.take(k as int));
    }
    assert(es.take(n as int) =~= es);
    out
}

/// The medium of a layer, traced.
pub fn params_on<T: Copy, A: Arith<T>>(ops: &A, w: &KerrWeights<T>, chi: Traced<T>) -> (m: Params<T>)
    requires
        chi.ok(*ops),
        w.gamma_raw@.len() <= w.omega@.len(),
    ensures
        m.ok(*ops, w.gamma_raw@.len() as int),
        m.medium() == medium_of(*w, chi.e@),
{
    let n: usize = w.gamma_raw.len();
    let ghost es = medium_of(*w, chi.e@).gamma;
    let mut gamma: TracedVec<T> = TracedVec::new(ops);
    let mut k: usize = 0;
    assert(gamma.e@ =~= es.take(0));
    while k < n
        invariant
            n == w.gamma_raw@.len(),
            es == medium_of(*w, chi.e@).gamma,
            k <= n,
            gamma.ok(*ops),
            gamma.e@ == es.take(k as int),
        decreases n - k,
    {
        gamma.push(ops, softplus_on(ops, Traced::of(ops, w.gamma_raw[k])));
        k += 1;
        assert(gamma.e@ =~= es.take(k as int));
    }
    assert(gamma.e@ =~= es);
    Params {
        gamma,
        omega: traced(ops, &w.omega),
        alpha: Traced::of(ops, w.alpha),
        beta: Traced::of(ops, w.beta),
        chi,
    }
}

/// Four weights, traced.
pub fn four_on<T: Copy, A: Arith<T>>(ops: &A, w: &[T; 4]) -> (out: TracedVec<T>)
    ensures
        out.ok(*ops),
        out.v@.len() == 4,
        out.e@ == vals(w@),
{
    let mut out: TracedVec<T> = TracedVec::new(ops);
    out.push(ops, Traced::of(ops, w[0]));
    out.push(ops, Traced::of(ops, w[1]));
    out.push(ops, Traced::of(ops, w[2]));
    out.push(ops, Traced::of(ops, w[3]));
    assert(out.e@ =~= vals(w@));
    out
}

/// The waves at the end of a layer's integration, traced.
pub fn final_on<T: Copy, A: Arith<T>>(
    ops: &A,
    w: &KerrWeights<T>,
    chi: Traced<T>,
    x: &TracedVec<T>,
    memory: Option<&Offsets<T>>,
) -> (out: State<T>)
    requires
        chi.ok(*ops),
        x.ok(*ops),
        kerr_shaped(*w, w.gamma_raw@.len() as int),
        2 * w.gamma_raw@.len() <= x.v@.len(),
        offsets_cover(memory, w.gamma_raw@.len() as int),
    ensures
        out.ok(*ops, w.gamma_raw@.len() as int),
        out.waves() == final_of(*w, chi.e@, x.e@, memory),
{
    let n: usize = w.gamma_raw.len();
    let m: Params<T> = params_on(ops, w, chi);
    let dt: Traced<T> = Traced::ratio(ops, 1, 1).over(ops, Traced::count(ops, w.rk4_n_steps));
    let weights: TracedVec<T> = four_on(ops, &w.rk4_weights);
    let entered: State<T> = waves_on(ops, x, n);
    let mut z: State<T> = match memory {
        Some(offsets) => {
            let upto: usize = offsets.r.len();
            State {
                r: shifted_on(ops, &entered.r, &offsets.r, upto),
                s: shifted_on(ops, &entered.s, &offsets.s, upto),
            }
        },
        None => entered,
    };
    let ghost z0 = start_of(waves_of(x.e@, n as int), memory);
    assert(z.waves() == z0);
    let steps: usize = w.rk4_n_steps;
    let mut i: usize = 0;
    while i < steps
        invariant
            n == w.gamma_raw@.len(),
            2 * n <= usize::MAX,
            m.ok(*ops, n as int),
            m.medium() == medium_of(*w, chi.e@),
            dt.ok(*ops),
            dt.e@ == dt_of(*w),
            weights.ok(*ops),
            weights.v@.len() == 4,
            weights.e@ == vals(w.rk4_weights@),
            steps == w.rk4_n_steps,
            i <= steps,
            z.ok(*ops, n as int),
            z.waves() == steps_of(medium_of(*w, chi.e@), dt_of(*w), vals(w.rk4_weights@), z0, i as int),
        decreases steps - i,
    {
        assert(n <= usize::MAX - 2);
        z = step_on(ops, &m, dt, &weights, &z);
        i += 1;
    }
    z
}

/// The vector of waves, traced.
pub fn woven_on<T: Copy, A: Arith<T>>(ops: &A, z: &State<T>) -> (out: TracedVec<T>)
    requires
        z.ok(*ops, z.r.v@.len() as int),
    ensures
        out.ok(*ops),
        out.e@ == woven_of(z.waves()),
{
    let n: usize = z.r.len();
    let ghost es = woven_of(z.waves());
    let mut out: TracedVec<T> = TracedVec::new(ops);
    let mut k: usize = 0;
    assert(out.e@ =~= es.take(0));
    while k < n
        invariant
            z.ok(*ops, n as int),
            es == woven_of(z.waves()),
            k <= n,
            out.ok(*ops),
            out.e@ == es.take(2 * k),
        decreases n - k,
    {
        out.push(ops, z.r.get(ops, k));
        out.push(ops, z.s.get(ops, k));
        k += 1;
        assert(out.e@ =~= es.take(2 * k));
    }
    assert(es.take(2 * n) =~= es);
    out
}

/// What a layer's integration makes of `x`, traced.
pub fn kerr_on<T: Copy, A: Arith<T>>(
    ops: &A,
    w: &KerrWeights<T>,
    x: &TracedVec<T>,
    memory: Option<&Offsets<T>>,
) -> (out: TracedVec<T>)
    requires
        x.ok(*ops),
        kerr_shaped(*w, w.gamma_raw@.len() as int),
        2 * w.gamma_raw@.len() <= x.v@.len(),
        offsets_cover(memory, w.gamma_raw@.len() as int),
    ensures
        out.ok(*ops),
        out.v@.len() == 2 * w.gamma_raw@.len(),
        out.e@ == kerr_of(*w, x.e@, memory),
{
    let z: State<T> = final_on(ops, w, Traced::of(ops, w.chi), x, memory);
    woven_on(ops, &z)
}

/// The medium of plain values.
pub open spec fn plain_medium<T>(gamma: Seq<T>, omega: Seq<T>, alpha: T, beta: T, chi: T) -> Medium<
    T,
> {
    Medium {
        gamma: vals(gamma),
        omega: vals(omega),
        alpha: val(alpha),
        beta: val(beta),
        chi: val(chi),
    }
}

/// The waves of plain values.
pub open spec fn plain_waves<T>(r: Seq<T>, s: Seq<T>) -> Waves<T> {
    Waves { r: vals(r), s: vals(s) }
}

/// The right-hand side of the ODE.
pub fn kerr_derivative<T: Copy, A: Arith<T>>(
    ops: &A,
    r: &[T],
    s: &[T],
    gamma: &[T],
    omega: &[T],
    alpha: T,
    beta: T,
    chi: T,
) -> (out: (Vec<T>, Vec<T>))
    requires
        r@.len() == s@.len(),
        r@.len() <= gamma@.len(),
        r@.len() <= omega@.len(),
        r@.len() <= usize::MAX - 2,
    ensures
        fits_all(
            *ops,
            derivative_of(plain_medium(gamma@, omega@, alpha, beta, chi), plain_waves(r@, s@)).r,
            out.0@,
        ),
        fits_all(
            *ops,
            derivative_of(plain_medium(gamma@, omega@, alpha, beta, chi), plain_waves(r@, s@)).s,
            out.1@,
        ),
{
    let m: Params<T> = Params {
        gamma: traced(ops, gamma),
        omega: traced(ops, omega),
        alpha: Traced::of(ops, alpha),
        beta: Traced::of(ops, beta),
        chi: Traced::of(ops, chi),
    };
    let z: State<T> = State { r: traced(ops, r), s: traced(ops, s) };
    let d: State<T> = derivative_on(ops, &m, &z);
    assert(m.medium() == plain_medium(gamma@, omega@, alpha, beta, chi));
    assert(z.waves() == plain_waves(r@, s@));
    (d.r.v, d.s.v)
}

/// A step of the integrator.
pub fn rk4_step_public<T: Copy, A: Arith<T>>(
    ops: &A,
    r: &[T],
    s: &[T],
    dt: T,
    gamma: &[T],
    omega: &[T],
    alpha: T,
    beta: T,
    chi: T,
    w: &[T; 4],
) -> (out: (Vec<T>, Vec<T>))
    requires
        r@.len() == s@.len(),
        r@.len() <= gamma@.len(),
        r@.len() <= omega@.len(),
        r@.len() <= usize::MAX - 2,
    ensures
        fits_all(
            *ops,
            step_of(
                plain_medium(gamma@, omega@, alpha, beta, chi),
                val(dt),
                vals(w@),
                plain_waves(r@, s@),
            ).r,
            out.0@,
        ),
        fits_all(
            *ops,
            step_of(
                plain_medium(gamma@, omega@, alpha, beta, chi),
                val(dt),
                vals(w@),
                plain_waves(r@, s@),
            ).s,
            out.1@,
        ),
{
    let m: Params<T> = Params {
        gamma: traced(ops, gamma),
        omega: traced(ops, omega),
        alpha: Traced::of(ops, alpha),
        beta: Traced::of(ops, beta),
        chi: Traced::of(ops, chi),
    };
    let z: State<T> = State { r: traced(ops, r), s: traced(ops, s) };
    let weights: TracedVec<T> = four_on(ops, w);
    let next: State<T> = step_on(ops, &m, Traced::of(ops, dt), &weights, &z);
    assert(m.medium() == plain_medium(gamma@, omega@, alpha, beta, chi));
    assert(z.waves() == plain_waves(r@, s@));
    (next.r.v, next.s.v)
}

} // verus!
