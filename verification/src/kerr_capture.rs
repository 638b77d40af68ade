//! The right-hand side of the Kerr ODE and the steps of its integrator, written into
//! buffers, and the share that each physical effect has in the right-hand side.

use vstd::prelude::*;
use crate::arith::{Arith, Traced, TracedVec, build};
#[allow(unused_imports)]
use crate::arith::{
    Expr, Test, Unary, entry, fits, fits_all, pick, plus, test_is, times, un, val, vals, zero,
};
use crate::config::ModelConfig;
use crate::kerr::{
    Params, State, around_on, cross_minus_on, cross_plus_on, drift_on, energy_on, gain,
    kerr_derivative, rk4_step_public,
};
#[allow(unused_imports)]
use crate::kerr::{
    Medium, Waves, cross_minus, cross_plus, derivative_of, drift_of, gained, phi_of, plain_medium,
    plain_waves, step_of,
};
use crate::layers::traced;
use crate::ode::{Quartet, quartets};
#[allow(unused_imports)]
use crate::ode::{law_quartets_are_matched, quartets_of};

verus! {

impl ModelConfig {
    /// The length of a step of the integrator.
    pub fn rk4_dt<T: Copy, A: Arith<T>>(&self, ops: &A) -> (dt: T)
        ensures
            fits(*ops, crate::arith::over(crate::arith::one(), Expr::Count(self.rk4_n_steps)), dt),
    {
        Traced::ratio(ops, 1, 1).over(ops, Traced::count(ops, self.rk4_n_steps)).v
    }
}

/// Replaces the first entries of a buffer.
fn overwrite<T: Copy>(buffer: &mut Vec<T>, xs: &Vec<T>)
    requires
        xs@.len() <= old(buffer)@.len(),
    ensures
        final(buffer)@ == xs@ + old(buffer)@.skip(xs@.len() as int),
{
    let n: usize = xs.len();
    let mut i: usize = 0;
    while i < n
        invariant
            n == xs@.len(),
            i <= n <= buffer@.len(),
            buffer@.len() == old(buffer)@.len(),
            forall|k: int| 0 <= k < i ==> buffer@[k] == xs@[k],
            forall|k: int| i <= k < buffer@.len() ==> buffer@[k] == old(buffer)@[k],
        decreases n - i,
    {
        buffer.set(i, xs[i]);
        i += 1;
    }
    assert(buffer@ =~= xs@ + old(buffer)@.skip(n as int));
}

/// A buffer whose first entries were replaced by values of formulas.
pub open spec fn written<T: Copy, A: Arith<T>>(
    ops: A,
    es: Seq<Expr<T>>,
    before: Seq<T>,
    after: Seq<T>,
) -> bool {
    &&& after.len() == before.len()
    &&& fits_all(ops, es, after.take(es.len() as int))
    &&& after.skip(es.len() as int) == before.skip(es.len() as int)
}

fn write_into<T: Copy, A: Arith<T>>(
    ops: &A,
    Ghost(es): Ghost<Seq<Expr<T>>>,
    buffer: &mut Vec<T>,
    xs: &Vec<T>,
)
    requires
        fits_all(*ops, es, xs@),
        xs@.len() <= old(buffer)@.len(),
    ensures
        written(*ops, es, old(buffer)@, final(buffer)@),
{
    overwrite(buffer, xs);
    assert(buffer@.take(es.len() as int) =~= xs@);
    assert(buffer@.skip(es.len() as int) =~= old(buffer)@.skip(es.len() as int));
}

/// The right-hand side of the ODE, written into buffers.
pub fn kerr_derivative_into<T: Copy, A: Arith<T>>(
    ops: &A,
    r: &[T],
    s: &[T],
    gamma: &[T],
    omega: &[T],
    alpha: T,
    beta: T,
    chi: T,
    dr: &mut Vec<T>,
    ds: &mut Vec<T>,
)
    requires
        r@.len() == s@.len(),
        r@.len() <= gamma@.len(),
        r@.len() <= omega@.len(),
        r@.len() <= usize::MAX - 2,
        r@.len() <= old(dr)@.len(),
        r@.len() <= old(ds)@.len(),
    ensures
        written(
            *ops,
            derivative_of(plain_medium(gamma@, omega@, alpha, beta, chi), plain_waves(r@, s@)).r,
            old(dr)@,
            final(dr)@,
        ),
        written(
            *ops,
            derivative_of(plain_medium(gamma@, omega@, alpha, beta, chi), plain_waves(r@, s@)).s,
            old(ds)@,
            final(ds)@,
        ),
{
    let (fall, rise) = kerr_derivative(ops, r, s, gamma, omega, alpha, beta, chi);
    let ghost d = derivative_of(
        plain_medium(gamma@, omega@, alpha, beta, chi),
        plain_waves(r@, s@),
    );
    write_into(ops, Ghost(d.r), dr, &fall);
    write_into(ops, Ghost(d.s), ds, &rise);
}

/// A step of the integrator, written into buffers.
pub fn rk4_step_into<T: Copy, A: Arith<T>>(
    ops: &A,
    r: &[T],
    s: &[T],
    dt: T,
    gamma: &[T],
    omega: &[T],
    alpha: T,
    beta: T,
    chi: T,
    w: &[T; 4],
    r_out: &mut Vec<T>,
    s_out: &mut Vec<T>,
)
    requires
        r@.len() == s@.len(),
        r@.len() <= gamma@.len(),
        r@.len() <= omega@.len(),
        r@.len() <= usize::MAX - 2,
        r@.len() <= old(r_out)@.len(),
        r@.len() <= old(s_out)@.len(),
    ensures
        written(
            *ops,
            step_of(
                plain_medium(gamma@, omega@, alpha, beta, chi),
                val(dt),
                vals(w@),
                plain_waves(r@, s@),
            ).r,
            old(r_out)@,
            final(r_out)@,
        ),
        written(
            *ops,
            step_of(
                plain_medium(gamma@, omega@, alpha, beta, chi),
                val(dt),
                vals(w@),
                plain_waves(r@, s@),
            ).s,
            old(s_out)@,
            final(s_out)@,
        ),
{
    let (next_r, next_s) = rk4_step_public(ops, r, s, dt, gamma, omega, alpha, beta, chi, w);
    let ghost z = step_of(
        plain_medium(gamma@, omega@, alpha, beta, chi),
        val(dt),
        vals(w@),
        plain_waves(r@, s@),
    );
    write_into(ops, Ghost(z.r), r_out, &next_r);
    write_into(ops, Ghost(z.s), s_out, &next_s);
}

/// The shares of damping, phase rotation and four-wave mixing. A call adds to what is there.
pub struct DerivativeCapture<T> {
    pub damping_dr: Vec<T>,
    pub damping_ds: Vec<T>,
    /// The turn by a band's own energy and by the energy around it, together.
    pub phase_dr: Vec<T>,
    pub phase_ds: Vec<T>,
    pub fwm_dr: Vec<T>,
    pub fwm_ds: Vec<T>,
}

impl<T> DerivativeCapture<T> {
    /// Room for `n` bands.
    pub open spec fn holds(&self, n: int) -> bool {
        &&& n <= self.damping_dr@.len()
        &&& self.damping_ds@.len() == self.damping_dr@.len()
        &&& n <= self.phase_dr@.len()
        &&& self.phase_ds@.len() == self.phase_dr@.len()
        &&& n <= self.fwm_dr@.len()
        &&& self.fwm_ds@.len() == self.fwm_dr@.len()
    }

    /// What damping adds to the slopes.
    pub open spec fn damping(&self) -> Waves<T> {
        plain_waves(self.damping_dr@, self.damping_ds@)
    }

    /// What turning adds to the slopes.
    pub open spec fn phase(&self) -> Waves<T> {
        plain_waves(self.phase_dr@, self.phase_ds@)
    }

    /// What mixing adds to the slopes.
    pub open spec fn fwm(&self) -> Waves<T> {
        plain_waves(self.fwm_dr@, self.fwm_ds@)
    }
}

/// Shares with the product of a factor and a component added for each of the bands.
pub open spec fn added_of<T>(d: Seq<Expr<T>>, f: Seq<Expr<T>>, x: Seq<Expr<T>>) -> Seq<Expr<T>> {
    Seq::new(
        d.len(),
        |k: int|
            if k < x.len() {
                plus(d[k], times(f[k], x[k]))
            } else {
                d[k]
            },
    )
}

/// The first `n` formulas, negated.
pub open spec fn negated_of<T>(xs: Seq<Expr<T>>, n: int) -> Seq<Expr<T>> {
    Seq::new(n as nat, |k: int| un(Unary::Negated, xs[k]))
}

/// The turn of each band.
pub open spec fn phis_of<T>(m: Medium<T>, z: Waves<T>) -> Seq<Expr<T>> {
    Seq::new(z.r.len(), |k: int| phi_of(m, z, k))
}

/// Shares with the damping of each band added: `-gamma * z`.
pub open spec fn damped<T>(m: Medium<T>, z: Waves<T>, d: Waves<T>) -> Waves<T> {
    let loss = negated_of(m.gamma, z.r.len() as int);
    Waves { r: added_of(d.r, loss, z.r), s: added_of(d.s, loss, z.s) }
}

/// Shares with the rotation of each band added: `-phi * s` and `phi * r`.
pub open spec fn rotated<T>(m: Medium<T>, z: Waves<T>, d: Waves<T>) -> Waves<T> {
    let phi = phis_of(m, z);
    Waves {
        r: added_of(d.r, negated_of(phi, z.r.len() as int), z.s),
        s: added_of(d.s, phi, z.r),
    }
}

/// A slope with the negated `chi * g` added.
pub open spec fn drained<T>(x: Expr<T>, chi: Expr<T>, g: Expr<T>) -> Expr<T> {
    plus(x, un(Unary::Negated, times(chi, g)))
}

/// Slopes or shares after the exchange of a quartet, each change a sum.
pub open spec fn traded<T>(chi: Expr<T>, z: Waves<T>, d: Waves<T>, q: Quartet) -> Waves<T> {
    let (ra, sa) = (z.r[q.a as int], z.s[q.a as int]);
    let (rb, sb) = (z.r[q.b as int], z.s[q.b as int]);
    let (rc, sc) = (z.r[q.c as int], z.s[q.c as int]);
    let (rd, sd) = (z.r[q.d as int], z.s[q.d as int]);
    let ab_re = cross_minus(ra, rb, sa, sb);
    let ab_im = cross_plus(ra, sb, sa, rb);
    let cd_re = cross_minus(rc, rd, sc, sd);
    let cd_im = cross_plus(rc, sd, sc, rd);
    Waves {
        r: d.r.update(
            q.a as int,
            gained(d.r[q.a as int], chi, cross_minus(rb, cd_im, sb, cd_re)),
        ).update(q.b as int, gained(d.r[q.b as int], chi, cross_minus(ra, cd_im, sa, cd_re))).update(
            q.c as int,
            gained(d.r[q.c as int], chi, cross_minus(ab_im, rd, ab_re, sd)),
        ).update(q.d as int, gained(d.r[q.d as int], chi, cross_minus(ab_im, rc, ab_re, sc))),
        s: d.s.update(
            q.a as int,
            drained(d.s[q.a as int], chi, cross_plus(rb, cd_re, sb, cd_im)),
        ).update(q.b as int, drained(d.s[q.b as int], chi, cross_plus(ra, cd_re, sa, cd_im))).update(
            q.c as int,
            drained(d.s[q.c as int], chi, cross_plus(ab_re, rd, ab_im, sd)),
        ).update(q.d as int, drained(d.s[q.d as int], chi, cross_plus(ab_re, rc, ab_im, sc))),
    }
}

/// After the exchanges of the first `n` quartets.
pub open spec fn traded_upto<T>(
    chi: Expr<T>,
    z: Waves<T>,
    d: Waves<T>,
    qs: Seq<Quartet>,
    n: int,
) -> Waves<T>
    decreases n,
{
    if n <= 0 {
        d
    } else {
        traded(chi, z, traded_upto(chi, z, d, qs, n - 1), qs[n - 1])
    }
}

/// With four-wave mixing added, which takes more than four bands and a strength that is not
/// zero.
pub open spec fn mixed_in<T>(m: Medium<T>, z: Waves<T>, d: Waves<T>) -> Waves<T> {
    if z.r.len() <= 4 {
        d
    } else {
        let qs = quartets_of(z.r.len() as int);
        let x = traded_upto(m.chi, z, d, qs, qs.len() as int);
        Waves {
            r: Seq::new(d.r.len(), |k: int| pick(Test::Equals, m.chi, zero(), d.r[k], x.r[k])),
            s: Seq::new(d.s.len(), |k: int| pick(Test::Equals, m.chi, zero(), d.s[k], x.s[k])),
        }
    }
}

fn drain<T: Copy, A: Arith<T>>(
    ops: &A,
    x: &mut TracedVec<T>,
    i: usize,
    chi: Traced<T>,
    g: Traced<T>,
)
    requires
        old(x).ok(*ops),
        chi.ok(*ops),
        g.ok(*ops),
        i < old(x).v@.len(),
    ensures
        final(x).ok(*ops),
        final(x).v@.len() == old(x).v@.len(),
        final(x).e@ == old(x).e@.update(i as int, drained(old(x).e@[i as int], chi.e@, g.e@)),
{
    let y: Traced<T> = x.get(ops, i).plus(ops, chi.times(ops, g).negated(ops));
    x.set(ops, i, y);
}

fn trade_on<T: Copy, A: Arith<T>>(
    ops: &A,
    chi: Traced<T>,
    z: &State<T>,
    d: State<T>,
    q: Quartet,
) -> (out: State<T>)
    requires
        chi.ok(*ops),
        z.ok(*ops, z.r.v@.len() as int),
        d.ok(*ops, d.r.v@.len() as int),
        z.r.v@.len() <= d.r.v@.len(),
        q.a < q.c < q.d < q.b < z.r.v@.len(),
    ensures
        out.ok(*ops, d.r.v@.len() as int),
        out.waves() == traded(chi.e@, z.waves(), d.waves(), q),
{
    let (ra, sa) = (z.r.get(ops, q.a), z.s.get(ops, q.a));
    let (rb, sb) = (z.r.get(ops, q.b), z.s.get(ops, q.b));
    let (rc, sc) = (z.r.get(ops, q.c), z.s.get(ops, q.c));
    let (rd, sd) = (z.r.get(ops, q.d), z.s.get(ops, q.d));
    let ab_re: Traced<T> = cross_minus_on(ops, ra, rb, sa, sb);
    let ab_im: Traced<T> = cross_plus_on(ops, ra, sb, sa, rb);
    let cd_re: Traced<T> = cross_minus_on(ops, rc, rd, sc, sd);
    let cd_im: Traced<T> = cross_plus_on(ops, rc, sd, sc, rd);
    let mut dr: TracedVec<T> = d.r;
    let mut ds: TracedVec<T> = d.s;
    gain(ops, &mut dr, q.a, chi, cross_minus_on(ops, rb, cd_im, sb, cd_re));
    drain(ops, &mut ds, q.a, chi, cross_plus_on(ops, rb, cd_re, sb, cd_im));
    gain(ops, &mut dr, q.b, chi, cross_minus_on(ops, ra, cd_im, sa, cd_re));
    drain(ops, &mut ds, q.b, chi, cross_plus_on(ops, ra, cd_re, sa, cd_im));
    gain(ops, &mut dr, q.c, chi, cross_minus_on(ops, ab_im, rd, ab_re, sd));
    drain(ops, &mut ds, q.c, chi, cross_plus_on(ops, ab_re, rd, ab_im, sd));
    gain(ops, &mut dr, q.d, chi, cross_minus_on(ops, ab_im, rc, ab_re, sc));
    drain(ops, &mut ds, q.d, chi, cross_plus_on(ops, ab_re, rc, ab_im, sc));
    State { r: dr, s: ds }
}

/// Four-wave mixing added to slopes or shares, traced.
fn mixed_in_on<T: Copy, A: Arith<T>>(ops: &A, m: &Params<T>, z: &State<T>, start: State<T>) -> (out:
    State<T>)
    requires
        z.ok(*ops, z.r.v@.len() as int),
        m.ok(*ops, z.r.v@.len() as int),
        start.ok(*ops, start.r.v@.len() as int),
        z.r.v@.len() <= start.r.v@.len(),
        z.r.v@.len() <= usize::MAX - 2,
    ensures
        out.ok(*ops, start.r.v@.len() as int),
        out.waves() == mixed_in(m.medium(), z.waves(), start.waves()),
{
    let n: usize = z.r.len();
    let len: usize = start.r.len();
    if n <= 4 {
        return start;
    }
    let ghost zw = z.waves();
    let ghost base = start.waves();
    let nought: Traced<T> = Traced::ratio(ops, 0, 1);
    let off: bool = ops.equals(m.chi.v, nought.v);
    assert(test_is(*ops, Test::Equals, m.chi.v, nought.v, off));
    let ghost want = mixed_in(m.medium(), zw, base);
    let mut d: State<T> = start;
    if !off {
        let qs: Vec<Quartet> = quartets(n);
        let count: usize = qs.len();
        let mut i: usize = 0;
        while i < count
            invariant
                z.ok(*ops, n as int),
                m.ok(*ops, n as int),
                zw == z.waves(),
                n <= len,
                count == qs@.len(),
                qs@ == quartets_of(n as int),
                i <= count,
                d.ok(*ops, len as int),
                d.waves() == traded_upto(m.chi.e@, zw, base, qs@, i as int),
            decreases count - i,
        {
            proof {
                law_quartets_are_matched(n, i as int);
            }
            d = trade_on(ops, m.chi, z, d, qs[i]);
            i += 1;
        }
    }
    proof {
        assert forall|k: int| 0 <= k < len implies fits(*ops, want.r[k], #[trigger] d.r.v@[k]) by {
            assert(fits(*ops, d.r.e@[k], d.r.v@[k]));
        }
        assert forall|k: int| 0 <= k < len implies fits(*ops, want.s[k], #[trigger] d.s.v@[k]) by {
            assert(fits(*ops, d.s.e@[k], d.s.v@[k]));
        }
    }
    State {
        r: TracedVec { v: d.r.v, e: Ghost(want.r) },
        s: TracedVec { v: d.s.v, e: Ghost(want.s) },
    }
}

fn added_on<T: Copy, A: Arith<T>>(
    ops: &A,
    d: &TracedVec<T>,
    f: &TracedVec<T>,
    x: &TracedVec<T>,
) -> (out: TracedVec<T>)
    requires
        d.ok(*ops),
        f.ok(*ops),
        x.ok(*ops),
        x.v@.len() <= f.v@.len(),
    ensures
        out.ok(*ops),
        out.v@.len() == d.v@.len(),
        out.e@ == added_of(d.e@, f.e@, x.e@),
{
    let len: usize = d.len();
    let n: usize = x.len();
    let one = |k: usize| -> (r: Traced<T>)
        requires
            k < len,
        ensures
            r.ok(*ops),
            r.e@ == entry(added_of(d.e@, f.e@, x.e@), k),
        {
            if k < n {
                d.get(ops, k).plus(ops, f.get(ops, k).times(ops, x.get(ops, k)))
            } else {
                d.get(ops, k)
            }
        };
    build(ops, len, Ghost(added_of(d.e@, f.e@, x.e@)), one)
}

fn negated_on<T: Copy, A: Arith<T>>(ops: &A, xs: &TracedVec<T>, n: usize) -> (out: TracedVec<T>)
    requires
        xs.ok(*ops),
        n <= xs.v@.len(),
    ensures
        out.ok(*ops),
        out.v@.len() == n,
        out.e@ == negated_of(xs.e@, n as int),
{
    let one = |k: usize| -> (r: Traced<T>)
        requires
            k < n,
        ensures
            r.ok(*ops),
            r.e@ == entry(negated_of(xs.e@, n as int), k),
        { xs.get(ops, k).negated(ops) };
    build(ops, n, Ghost(negated_of(xs.e@, n as int)), one)
}

fn phis_on<T: Copy, A: Arith<T>>(ops: &A, m: &Params<T>, z: &State<T>) -> (out: TracedVec<T>)
    requires
        z.ok(*ops, z.r.v@.len() as int),
        m.ok(*ops, z.r.v@.len() as int),
        z.r.v@.len() <= usize::MAX - 2,
    ensures
        out.ok(*ops),
        out.v@.len() == z.r.v@.len(),
        out.e@ == phis_of(m.medium(), z.waves()),
{
    let n: usize = z.r.len();
    let one = |k: usize| -> (r: Traced<T>)
        requires
            k < n,
        ensures
            r.ok(*ops),
            r.e@ == entry(phis_of(m.medium(), z.waves()), k),
        {
            let own: Traced<T> = energy_on(ops, z.r.get(ops, k), z.s.get(ops, k));
            let near: Traced<T> = around_on(ops, z, k);
            m.omega.get(ops, k).plus(ops, m.alpha.times(ops, own)).plus(
                ops,
                m.beta.times(ops, near),
            )
        };
    build(ops, n, Ghost(phis_of(m.medium(), z.waves())), one)
}

/// Takes a buffer as formulas, leaving nothing behind.
fn taken<T: Copy, A: Arith<T>>(ops: &A, buffer: &mut Vec<T>) -> (out: TracedVec<T>)
    ensures
        out.ok(*ops),
        out.e@ == vals(old(buffer)@),
{
    let mut v: Vec<T> = Vec::new();
    std::mem::swap(&mut v, buffer);
    TracedVec::of(ops, v)
}

/// The right-hand side of the ODE, written into buffers, and the share of each effect added
/// to the capture.
pub fn kerr_derivative_captured<T: Copy, A: Arith<T>>(
    ops: &A,
    r: &[T],
    s: &[T],
    gamma: &[T],
    omega: &[T],
    alpha: T,
    beta: T,
    chi: T,
    dr: &mut Vec<T>,
    ds: &mut Vec<T>,
    capture: &mut DerivativeCapture<T>,
)
    requires
        r@.len() == s@.len(),
        r@.len() <= gamma@.len(),
        r@.len() <= omega@.len(),
        r@.len() <= usize::MAX - 2,
        r@.len() <= old(dr)@.len(),
        r@.len() <= old(ds)@.len(),
        old(capture).holds(r@.len() as int),
    ensures
        ({
            let m = plain_medium(gamma@, omega@, alpha, beta, chi);
            let z = plain_waves(r@, s@);
            let d = mixed_in(m, z, drift_of(m, z));
            let damping = damped(m, z, old(capture).damping());
            let phase = rotated(m, z, old(capture).phase());
            let fwm = mixed_in(m, z, old(capture).fwm());
            &&& written(*ops, d.r, old(dr)@, final(dr)@)
            &&& written(*ops, d.s, old(ds)@, final(ds)@)
            &&& fits_all(*ops, damping.r, final(capture).damping_dr@)
            &&& fits_all(*ops, damping.s, final(capture).damping_ds@)
            &&& fits_all(*ops, phase.r, final(capture).phase_dr@)
            &&& fits_all(*ops, phase.s, final(capture).phase_ds@)
            &&& fits_all(*ops, fwm.r, final(capture).fwm_dr@)
            &&& fits_all(*ops, fwm.s, final(capture).fwm_ds@)
        }),
{
    let m: Params<T> = Params {
        gamma: traced(ops, gamma),
        omega: traced(ops, omega),
        alpha: Traced::of(ops, alpha),
        beta: Traced::of(ops, beta),
        chi: Traced::of(ops, chi),
    };
    let z: State<T> = State { r: traced(ops, r), s: traced(ops, s) };
    assert(m.medium() == plain_medium(gamma@, omega@, alpha, beta, chi));
    assert(z.waves() == plain_waves(r@, s@));
    let slopes: State<T> = drift_on(ops, &m, &z);
    let slopes: State<T> = mixed_in_on(ops, &m, &z, slopes);
    write_into(ops, Ghost(slopes.r.e@), dr, &slopes.r.v);
    write_into(ops, Ghost(slopes.s.e@), ds, &slopes.s.v);
    let damping: State<T> = State {
        r: taken(ops, &mut capture.damping_dr),
        s: taken(ops, &mut capture.damping_ds),
    };
    let phase: State<T> = State {
        r: taken(ops, &mut capture.phase_dr),
        s: taken(ops, &mut capture.phase_ds),
    };
    let fwm: State<T> = State {
        r: taken(ops, &mut capture.fwm_dr),
        s: taken(ops, &mut capture.fwm_ds),
    };
    assert(damping.waves() == old(capture).damping());
    assert(phase.waves() == old(capture).phase());
    assert(fwm.waves() == old(capture).fwm());
    let n: usize = z.r.len();
    let loss: TracedVec<T> = negated_on(ops, &m.gamma, n);
    let phi: TracedVec<T> = phis_on(ops, &m, &z);
    let fwm: State<T> = mixed_in_on(ops, &m, &z, fwm);
    capture.damping_dr = added_on(ops, &damping.r, &loss, &z.r).v;
    capture.damping_ds = added_on(ops, &damping.s, &loss, &z.s).v;
    capture.phase_dr = added_on(ops, &phase.r, &negated_on(ops, &phi, n), &z.s).v;
    capture.phase_ds = added_on(ops, &phase.s, &phi, &z.r).v;
    capture.fwm_dr = fwm.r.v;
    capture.fwm_ds = fwm.s.v;
}

} // verus!
