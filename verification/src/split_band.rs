//! The ODE with its bands taken apart.
//!
//! The energy around a band is frozen for half of the steps, so that every band runs by
//! itself; between the halves it is taken anew.

use vstd::prelude::*;
use crate::arith::{Arith, Traced, TracedVec};
#[allow(unused_imports)]
use crate::arith::{
    Expr, Test, Unary, fits, fits_all, minus, one, over, pick, plus, test_is, times, un, val, vals,
    zero,
};
use crate::kerr::{Params, State, around_on, energy_on, four_on, params_on, waves_on, woven_on};
#[allow(unused_imports)]
use crate::kerr::{
    ahead, derivative_of, energies_around, final_of, halfway, step_of, steps_of, Medium, Waves,
    around_of, dt_of, energy_of, fall_of, kerr_shaped, medium_of, rise_of, turn_of, waves_of,
    woven_of,
};
use crate::layers::traced;
use crate::ode::neighbours;
#[allow(unused_imports)]
use crate::ode::neighbours_of;
#[allow(unused_imports)]
use crate::ode_backward::{grown, raw_of, twice, two};
use crate::ode_backward::{raw_on, twice_on};
use crate::weights::KerrWeights;

verus! {

/// Formulas of the two components of a band.
pub struct Wave<T> {
    pub r: Expr<T>,
    pub s: Expr<T>,
}

/// Formulas of what a band runs in: `ns` is the energy around it.
pub struct BandMedium<T> {
    pub gamma: Expr<T>,
    pub omega: Expr<T>,
    pub alpha: Expr<T>,
    pub beta: Expr<T>,
    pub ns: Expr<T>,
}

/// The turn of a band.
pub open spec fn band_phi<T>(m: BandMedium<T>, z: Wave<T>) -> Expr<T> {
    turn_of(m.omega, m.alpha, energy_of(z.r, z.s), m.beta, m.ns)
}

/// The slopes of a band.
pub open spec fn band_slope<T>(m: BandMedium<T>, z: Wave<T>) -> Wave<T> {
    Wave {
        r: fall_of(m.gamma, z.r, band_phi(m, z), z.s),
        s: rise_of(m.gamma, z.s, band_phi(m, z), z.r),
    }
}

/// A band half a step ahead.
pub open spec fn band_half<T>(z: Wave<T>, dt: Expr<T>, k: Wave<T>) -> Wave<T> {
    Wave {
        r: plus(z.r, times(times(Expr::Ratio(1, 2), dt), k.r)),
        s: plus(z.s, times(times(Expr::Ratio(1, 2), dt), k.s)),
    }
}

/// A band a step ahead.
pub open spec fn band_ahead<T>(z: Wave<T>, dt: Expr<T>, k: Wave<T>) -> Wave<T> {
    Wave { r: plus(z.r, times(dt, k.r)), s: plus(z.s, times(dt, k.s)) }
}

/// `x + dt * (w0 a + w1 b + w2 c + w3 d)`
pub open spec fn weighed<T>(
    x: Expr<T>,
    dt: Expr<T>,
    w: Seq<Expr<T>>,
    a: Expr<T>,
    b: Expr<T>,
    c: Expr<T>,
    d: Expr<T>,
) -> Expr<T> {
    plus(
        x,
        times(
            dt,
            plus(plus(plus(times(w[0], a), times(w[1], b)), times(w[2], c)), times(w[3], d)),
        ),
    )
}

/// The points of evaluation of a step, and the slopes there.
pub struct BandStep<T> {
    pub k1: Wave<T>,
    pub z2: Wave<T>,
    pub k2: Wave<T>,
    pub z3: Wave<T>,
    pub k3: Wave<T>,
    pub z4: Wave<T>,
    pub k4: Wave<T>,
}

/// The points of evaluation of a step from `z`, and the slopes there.
pub open spec fn band_points<T>(m: BandMedium<T>, dt: Expr<T>, z: Wave<T>) -> BandStep<T> {
    let k1 = band_slope(m, z);
    let z2 = band_half(z, dt, k1);
    let k2 = band_slope(m, z2);
    let z3 = band_half(z, dt, k2);
    let k3 = band_slope(m, z3);
    let z4 = band_ahead(z, dt, k3);
    let k4 = band_slope(m, z4);
    BandStep { k1, z2, k2, z3, k3, z4, k4 }
}

/// A band after a step.
pub open spec fn band_step<T>(
    m: BandMedium<T>,
    dt: Expr<T>,
    w: Seq<Expr<T>>,
    z: Wave<T>,
) -> Wave<T> {
    let p = band_points(m, dt, z);
    Wave {
        r: weighed(z.r, dt, w, p.k1.r, p.k2.r, p.k3.r, p.k4.r),
        s: weighed(z.s, dt, w, p.k1.s, p.k2.s, p.k3.s, p.k4.s),
    }
}

/// A band after `n` steps.
pub open spec fn band_steps<T>(
    m: BandMedium<T>,
    dt: Expr<T>,
    w: Seq<Expr<T>>,
    z: Wave<T>,
    n: int,
) -> Wave<T>
    decreases n,
{
    if n <= 0 {
        z
    } else {
        band_step(m, dt, w, band_steps(m, dt, w, z, n - 1))
    }
}

/// A band's share of a medium, with the energy around it.
pub open spec fn band_of<T>(m: Medium<T>, k: int, ns: Expr<T>) -> BandMedium<T> {
    BandMedium { gamma: m.gamma[k], omega: m.omega[k], alpha: m.alpha, beta: m.beta, ns }
}

/// A band of a state.
pub open spec fn wave_at<T>(z: Waves<T>, k: int) -> Wave<T> {
    Wave { r: z.r[k], s: z.s[k] }
}

/// Band `k` after `n` steps with the energy around it as it is in `z`.
pub open spec fn frozen_band<T>(
    m: Medium<T>,
    dt: Expr<T>,
    w: Seq<Expr<T>>,
    z: Waves<T>,
    k: int,
    n: int,
) -> Wave<T> {
    band_steps(band_of(m, k, around_of(z, k)), dt, w, wave_at(z, k), n)
}

/// All bands after `n` steps with the energies around them as they are in `z`.
pub open spec fn frozen_steps<T>(
    m: Medium<T>,
    dt: Expr<T>,
    w: Seq<Expr<T>>,
    z: Waves<T>,
    n: int,
) -> Waves<T> {
    Waves {
        r: Seq::new(z.r.len(), |k: int| frozen_band(m, dt, w, z, k, n).r),
        s: Seq::new(z.r.len(), |k: int| frozen_band(m, dt, w, z, k, n).s),
    }
}

/// What a split integration keeps: every band before each step and after the last, and
/// the energies around the bands, for both halves.
pub struct SplitBandForwardCache<T> {
    pub n_bands: usize,
    pub rk4_steps: usize,
    pub dt: T,
    pub gamma: Vec<T>,
    pub a_state_r: Vec<Vec<T>>,
    pub a_state_s: Vec<Vec<T>>,
    pub ns_frozen_a: Vec<T>,
    pub b_state_r: Vec<Vec<T>>,
    pub b_state_s: Vec<Vec<T>>,
    pub ns_frozen_b: Vec<T>,
}

/// A band, traced.
#[derive(Clone, Copy)]
pub struct Band<T> {
    pub r: Traced<T>,
    pub s: Traced<T>,
}

impl<T: Copy> Band<T> {
    /// The numbers are values of their formulas.
    pub open spec fn ok<A: Arith<T>>(self, ops: A) -> bool {
        self.r.ok(ops) && self.s.ok(ops)
    }

    /// The formulas of the components.
    pub open spec fn wave(self) -> Wave<T> {
        Wave { r: self.r.e@, s: self.s.e@ }
    }
}

/// What a band runs in, traced.
#[derive(Clone, Copy)]
pub struct BandParams<T> {
    pub gamma: Traced<T>,
    pub omega: Traced<T>,
    pub alpha: Traced<T>,
    pub beta: Traced<T>,
    pub ns: Traced<T>,
}

impl<T: Copy> BandParams<T> {
    /// The numbers are values of their formulas.
    pub open spec fn ok<A: Arith<T>>(self, ops: A) -> bool {
        &&& self.gamma.ok(ops)
        &&& self.omega.ok(ops)
        &&& self.alpha.ok(ops)
        &&& self.beta.ok(ops)
        &&& self.ns.ok(ops)
    }

    /// The formulas of the parameters.
    pub open spec fn medium(self) -> BandMedium<T> {
        BandMedium {
            gamma: self.gamma.e@,
            omega: self.omega.e@,
            alpha: self.alpha.e@,
            beta: self.beta.e@,
            ns: self.ns.e@,
        }
    }
}

fn band_phi_on<T: Copy, A: Arith<T>>(ops: &A, m: BandParams<T>, z: Band<T>) -> (out: Traced<T>)
    requires
        m.ok(*ops),
        z.ok(*ops),
    ensures
        out.ok(*ops),
        out.e@ == band_phi(m.medium(), z.wave()),
{
    m.omega.plus(ops, m.alpha.times(ops, energy_on(ops, z.r, z.s))).plus(
        ops,
        m.beta.times(ops, m.ns),
    )
}

/// The slopes of a band, traced.
pub fn kerr_derivative_band<T: Copy, A: Arith<T>>(ops: &A, m: BandParams<T>, z: Band<T>) -> (out:
    Band<T>)
    requires
        m.ok(*ops),
        z.ok(*ops),
    ensures
        out.ok(*ops),
        out.wave() == band_slope(m.medium(), z.wave()),
{
    let phi: Traced<T> = band_phi_on(ops, m, z);
    let loss: Traced<T> = m.gamma.negated(ops);
    Band {
        r: loss.times(ops, z.r).minus(ops, phi.times(ops, z.s)),
        s: loss.times(ops, z.s).plus(ops, phi.times(ops, z.r)),
    }
}

fn band_half_on<T: Copy, A: Arith<T>>(ops: &A, z: Band<T>, dt: Traced<T>, k: Band<T>) -> (out: Band<
    T,
>)
    requires
        z.ok(*ops),
        dt.ok(*ops),
        k.ok(*ops),
    ensures
        out.ok(*ops),
        out.wave() == band_half(z.wave(), dt.e@, k.wave()),
{
    let half: Traced<T> = Traced::ratio(ops, 1, 2).times(ops, dt);
    Band {
        r: z.r.plus(ops, half.times(ops, k.r)),
        s: z.s.plus(ops, half.times(ops, k.s)),
    }
}

fn band_ahead_on<T: Copy, A: Arith<T>>(ops: &A, z: Band<T>, dt: Traced<T>, k: Band<T>) -> (out:
    Band<T>)
    requires
        z.ok(*ops),
        dt.ok(*ops),
        k.ok(*ops),
    ensures
        out.ok(*ops),
        out.wave() == band_ahead(z.wave(), dt.e@, k.wave()),
{
    Band { r: z.r.plus(ops, dt.times(ops, k.r)), s: z.s.plus(ops, dt.times(ops, k.s)) }
}

fn weighed_on<T: Copy, A: Arith<T>>(
    ops: &A,
    x: Traced<T>,
    dt: Traced<T>,
    w: &TracedVec<T>,
    a: Traced<T>,
    b: Traced<T>,
    c: Traced<T>,
    d: Traced<T>,
) -> (out: Traced<T>)
    requires
        x.ok(*ops),
        dt.ok(*ops),
        w.ok(*ops),
        w.v@.len() == 4,
        a.ok(*ops),
        b.ok(*ops),
        c.ok(*ops),
        d.ok(*ops),
    ensures
        out.ok(*ops),
        out.e@ == weighed(x.e@, dt.e@, w.e@, a.e@, b.e@, c.e@, d.e@),
{
    let sum: Traced<T> = w.get(ops, 0).times(ops, a).plus(ops, w.get(ops, 1).times(ops, b)).plus(
        ops,
        w.get(ops, 2).times(ops, c),
    ).plus(ops, w.get(ops, 3).times(ops, d));
    x.plus(ops, dt.times(ops, sum))
}

/// The points of evaluation of a step and the slopes there, traced.
#[derive(Clone, Copy)]
struct BandTrace<T> {
    k1: Band<T>,
    z2: Band<T>,
    k2: Band<T>,
    z3: Band<T>,
    k3: Band<T>,
    z4: Band<T>,
    k4: Band<T>,
}

impl<T: Copy> BandTrace<T> {
    spec fn ok<A: Arith<T>>(self, ops: A) -> bool {
        &&& self.k1.ok(ops)
        &&& self.z2.ok(ops)
        &&& self.k2.ok(ops)
        &&& self.z3.ok(ops)
        &&& self.k3.ok(ops)
        &&& self.z4.ok(ops)
        &&& self.k4.ok(ops)
    }

    spec fn points(self) -> BandStep<T> {
        BandStep {
            k1: self.k1.wave(),
            z2: self.z2.wave(),
            k2: self.k2.wave(),
            z3: self.z3.wave(),
            k3: self.k3.wave(),
            z4: self.z4.wave(),
            k4: self.k4.wave(),
        }
    }
}

fn band_points_on<T: Copy, A: Arith<T>>(ops: &A, m: BandParams<T>, dt: Traced<T>, z: Band<T>) -> (out:
    BandTrace<T>)
    requires
        m.ok(*ops),
        dt.ok(*ops),
        z.ok(*ops),
    ensures
        out.ok(*ops),
        out.points() == band_points(m.medium(), dt.e@, z.wave()),
{
    let k1: Band<T> = kerr_derivative_band(ops, m, z);
    let z2: Band<T> = band_half_on(ops, z, dt, k1);
    let k2: Band<T> = kerr_derivative_band(ops, m, z2);
    let z3: Band<T> = band_half_on(ops, z, dt, k2);
    let k3: Band<T> = kerr_derivative_band(ops, m, z3);
    let z4: Band<T> = band_ahead_on(ops, z, dt, k3);
    let k4: Band<T> = kerr_derivative_band(ops, m, z4);
    BandTrace { k1, z2, k2, z3, k3, z4, k4 }
}

/// A band after a step, traced.
pub fn rk4_step_band<T: Copy, A: Arith<T>>(
    ops: &A,
    m: BandParams<T>,
    dt: Traced<T>,
    w: &TracedVec<T>,
    z: Band<T>,
) -> (out: Band<T>)
    requires
        m.ok(*ops),
        dt.ok(*ops),
        w.ok(*ops),
        w.v@.len() == 4,
        z.ok(*ops),
    ensures
        out.ok(*ops),
        out.wave() == band_step(m.medium(), dt.e@, w.e@, z.wave()),
{
    let p: BandTrace<T> = band_points_on(ops, m, dt, z);
    Band {
        r: weighed_on(ops, z.r, dt, w, p.k1.r, p.k2.r, p.k3.r, p.k4.r),
        s: weighed_on(ops, z.s, dt, w, p.k1.s, p.k2.s, p.k3.s, p.k4.s),
    }
}

/// The states that half of an integration kept: band `k` after `j` steps, from `z` on.
pub open spec fn half_holds<T: Copy, A: Arith<T>>(
    ops: A,
    m: Medium<T>,
    dt: Expr<T>,
    w: Seq<Expr<T>>,
    z: Waves<T>,
    steps: int,
    state_r: Seq<Vec<T>>,
    state_s: Seq<Vec<T>>,
    ns: Seq<T>,
) -> bool {
    &&& state_r.len() == z.r.len()
    &&& state_s.len() == z.r.len()
    &&& ns.len() == z.r.len()
    &&& forall|k: int|
        0 <= k < state_r.len() ==> band_holds(
            ops,
            m,
            dt,
            w,
            z,
            k,
            steps,
            (#[trigger] state_r[k])@,
            state_s[k]@,
        )
    &&& forall|k: int| 0 <= k < ns.len() ==> fits(ops, around_of(z, k), #[trigger] ns[k])
}

/// The states of a band: before each step, and after the last.
pub open spec fn band_holds<T: Copy, A: Arith<T>>(
    ops: A,
    m: Medium<T>,
    dt: Expr<T>,
    w: Seq<Expr<T>>,
    z: Waves<T>,
    k: int,
    steps: int,
    rs: Seq<T>,
    ss: Seq<T>,
) -> bool {
    &&& rs.len() == steps + 1
    &&& ss.len() == steps + 1
    &&& forall|j: int|
        0 <= j <= steps ==> fits(ops, frozen_band(m, dt, w, z, k, j).r, #[trigger] rs[j])
    &&& forall|j: int|
        0 <= j <= steps ==> fits(ops, frozen_band(m, dt, w, z, k, j).s, #[trigger] ss[j])
}

/// What half of an integration leaves.
struct Half<T> {
    state_r: Vec<Vec<T>>,
    state_s: Vec<Vec<T>>,
    ns: Vec<T>,
    end: State<T>,
}

/// Runs every band for `steps` steps with the energies around them frozen.
fn run_half<T: Copy, A: Arith<T>>(
    ops: &A,
    m: &Params<T>,
    dt: Traced<T>,
    w: &TracedVec<T>,
    z: &State<T>,
    steps: usize,
) -> (out: Half<T>)
    requires
        z.ok(*ops, z.r.v@.len() as int),
        m.ok(*ops, z.r.v@.len() as int),
        dt.ok(*ops),
        w.ok(*ops),
        w.v@.len() == 4,
        z.r.v@.len() <= usize::MAX - 2,
    ensures
        out.end.ok(*ops, z.r.v@.len() as int),
        out.end.waves() == frozen_steps(m.medium(), dt.e@, w.e@, z.waves(), steps as int),
        half_holds(
            *ops,
            m.medium(),
            dt.e@,
            w.e@,
            z.waves(),
            steps as int,
            out.state_r@,
            out.state_s@,
            out.ns@,
        ),
{
    let n: usize = z.r.len();
    let ghost zw = z.waves();
    let ghost want = frozen_steps(m.medium(), dt.e@, w.e@, zw, steps as int);
    let mut state_r: Vec<Vec<T>> = Vec::new();
    let mut state_s: Vec<Vec<T>> = Vec::new();
    let mut ns: Vec<T> = Vec::new();
    let mut end_r: TracedVec<T> = TracedVec::new(ops);
    let mut end_s: TracedVec<T> = TracedVec::new(ops);
    let mut k: usize = 0;
    assert(end_r.e@ =~= want.r.take(0));
    assert(end_s.e@ =~= want.s.take(0));
    while k < n
        invariant
            z.ok(*ops, n as int),
            m.ok(*ops, n as int),
            dt.ok(*ops),
            w.ok(*ops),
            w.v@.len() == 4,
            n <= usize::MAX - 2,
            zw == z.waves(),
            want == frozen_steps(m.medium(), dt.e@, w.e@, zw, steps as int),
            k <= n,
            state_r@.len() == k,
            state_s@.len() == k,
            ns@.len() == k,
            forall|i: int|
                0 <= i < k ==> band_holds(
                    *ops,
                    m.medium(),
                    dt.e@,
                    w.e@,
                    zw,
                    i,
                    steps as int,
                    (#[trigger] state_r@[i])@,
                    state_s@[i]@,
                ),
            forall|i: int| 0 <= i < k ==> fits(*ops, around_of(zw, i), #[trigger] ns@[i]),
            end_r.ok(*ops),
            end_s.ok(*ops),
            end_r.e@ == want.r.take(k as int),
            end_s.e@ == want.s.take(k as int),
        decreases n - k,
    {
        let near: Traced<T> = around_on(ops, z, k);
        let band: BandParams<T> = BandParams {
            gamma: m.gamma.get(ops, k),
            omega: m.omega.get(ops, k),
            alpha: m.alpha,
            beta: m.beta,
            ns: near,
        };
        assert(band.medium() == band_of(m.medium(), k as int, around_of(zw, k as int)));
        let mut now: Band<T> = Band { r: z.r.get(ops, k), s: z.s.get(ops, k) };
        let mut rs: Vec<T> = Vec::new();
        let mut ss: Vec<T> = Vec::new();
        rs.push(now.r.v);
        ss.push(now.s.v);
        let mut j: usize = 0;
        while j < steps
            invariant
                dt.ok(*ops),
                w.ok(*ops),
                w.v@.len() == 4,
                band.ok(*ops),
                band.medium() == band_of(m.medium(), k as int, around_of(zw, k as int)),
                j <= steps,
                now.ok(*ops),
                now.wave() == frozen_band(m.medium(), dt.e@, w.e@, zw, k as int, j as int),
                rs@.len() == j + 1,
                ss@.len() == j + 1,
                forall|i: int|
                    0 <= i <= j ==> fits(
                        *ops,
                        frozen_band(m.medium(), dt.e@, w.e@, zw, k as int, i).r,
                        #[trigger] rs@[i],
                    ),
                forall|i: int|
                    0 <= i <= j ==> fits(
                        *ops,
                        frozen_band(m.medium(), dt.e@, w.e@, zw, k as int, i).s,
                        #[trigger] ss@[i],
                    ),
            decreases steps - j,
        {
            now = rk4_step_band(ops, band, dt, w, now);
            rs.push(now.r.v);
            ss.push(now.s.v);
            j += 1;
        }
        end_r.push(ops, now.r);
        end_s.push(ops, now.s);
        state_r.push(rs);
        state_s.push(ss);
        ns.push(near.v);
        k += 1;
        assert(end_r.e@ =~= want.r.take(k as int));
        assert(end_s.e@ =~= want.s.take(k as int));
    }
    assert(want.r.take(n as int) =~= want.r);
    assert(want.s.take(n as int) =~= want.s);
    Half { state_r, state_s, ns, end: State { r: end_r, s: end_s } }
}

/// The waves that a layer starts from.
pub open spec fn split_start<T>(w: KerrWeights<T>, x: Seq<T>) -> Waves<T> {
    waves_of(vals(x), w.gamma_raw@.len() as int)
}

/// The waves after the first half: half of the steps, rounded down.
pub open spec fn split_middle<T>(w: KerrWeights<T>, x: Seq<T>) -> Waves<T> {
    frozen_steps(
        medium_of(w, val(w.chi)),
        dt_of(w),
        vals(w.rk4_weights@),
        split_start(w, x),
        (w.rk4_n_steps / 2) as int,
    )
}

/// The waves after both halves.
pub open spec fn split_end<T>(w: KerrWeights<T>, x: Seq<T>) -> Waves<T> {
    frozen_steps(
        medium_of(w, val(w.chi)),
        dt_of(w),
        vals(w.rk4_weights@),
        split_middle(w, x),
        w.rk4_n_steps - w.rk4_n_steps / 2,
    )
}

/// A split integration of `x` ended in `out` and left `c`.
pub open spec fn split_done<T: Copy, A: Arith<T>>(
    ops: A,
    w: KerrWeights<T>,
    x: Seq<T>,
    out: Seq<T>,
    c: SplitBandForwardCache<T>,
) -> bool {
    let m = medium_of(w, val(w.chi));
    let ws = vals(w.rk4_weights@);
    &&& fits_all(ops, woven_of(split_end(w, x)), out)
    &&& c.n_bands == w.gamma_raw@.len()
    &&& c.rk4_steps == w.rk4_n_steps
    &&& fits(ops, dt_of(w), c.dt)
    &&& fits_all(ops, m.gamma, c.gamma@)
    &&& half_holds(
        ops,
        m,
        dt_of(w),
        ws,
        split_start(w, x),
        (w.rk4_n_steps / 2) as int,
        c.a_state_r@,
        c.a_state_s@,
        c.ns_frozen_a@,
    )
    &&& half_holds(
        ops,
        m,
        dt_of(w),
        ws,
        split_middle(w, x),
        w.rk4_n_steps - w.rk4_n_steps / 2,
        c.b_state_r@,
        c.b_state_s@,
        c.ns_frozen_b@,
    )
}

/// A strength of four-wave mixing compares as equal to zero.
pub open spec fn mixes_nothing<T: Copy, A: Arith<T>>(ops: A, chi: T) -> bool {
    exists|z: T| fits(ops, zero(), z) && #[trigger] test_is(ops, Test::Equals, chi, z, true)
}

/// Integrates a vector of waves band by band, where nothing is mixed: without a result where
/// the strength of four-wave mixing does not compare as equal to zero.
pub fn split_band_forward_unmixed<T: Copy, A: Arith<T>>(
    ops: &A,
    x: &[T],
    weights: &KerrWeights<T>,
) -> (res: Option<(Vec<T>, SplitBandForwardCache<T>)>)
    requires
        kerr_shaped(*weights, weights.gamma_raw@.len() as int),
        2 * weights.gamma_raw@.len() <= x@.len(),
    ensures
        exists|z: T, off: bool| #[trigger]
            test_is(*ops, Test::Equals, weights.chi, z, off) && fits(*ops, zero(), z) && off == (
            res is Some),
        res matches Some(done) ==> split_done(*ops, *weights, x@, done.0@, done.1),
{
    let nought: T = ops.ratio(0, 1);
    let off: bool = ops.equals(weights.chi, nought);
    assert(test_is(*ops, Test::Equals, weights.chi, nought, off));
    if !off {
        return None;
    }
    Some(split_band_forward_with_cache(ops, x, weights))
}

/// Integrates a vector of waves band by band, with one refresh of the energies around
/// them. There is no four-wave mixing: its strength has to compare as equal to zero.
pub fn split_band_forward_with_cache<T: Copy, A: Arith<T>>(
    ops: &A,
    x: &[T],
    weights: &KerrWeights<T>,
) -> (res: (Vec<T>, SplitBandForwardCache<T>))
    requires
        kerr_shaped(*weights, weights.gamma_raw@.len() as int),
        2 * weights.gamma_raw@.len() <= x@.len(),
        mixes_nothing(*ops, weights.chi),
    ensures
        split_done(*ops, *weights, x@, res.0@, res.1),
{
    let n: usize = weights.gamma_raw.len();
    let total: usize = weights.rk4_n_steps;
    let steps_a: usize = total / 2;
    let steps_b: usize = total - steps_a;
    let dt: Traced<T> = Traced::ratio(ops, 1, 1).over(ops, Traced::count(ops, total));
    let m: Params<T> = params_on(ops, weights, Traced::of(ops, weights.chi));
    let w: TracedVec<T> = four_on(ops, &weights.rk4_weights);
    let start: State<T> = waves_on(ops, &traced(ops, x), n);
    assert(n <= usize::MAX - 2);
    let a: Half<T> = run_half(ops, &m, dt, &w, &start, steps_a);
    let b: Half<T> = run_half(ops, &m, dt, &w, &a.end, steps_b);
    let out: TracedVec<T> = woven_on(ops, &b.end);
    let cache = SplitBandForwardCache {
        n_bands: n,
        rk4_steps: total,
        dt: dt.v,
        gamma: m.gamma.v,
        a_state_r: a.state_r,
        a_state_s: a.state_s,
        ns_frozen_a: a.ns,
        b_state_r: b.state_r,
        b_state_s: b.state_s,
        ns_frozen_b: b.ns,
    };
    (out.v, cache)
}

proof fn lemma_alone<T>(z: Waves<T>)
    requires
        z.r.len() == 1,
    ensures
        around_of(z, 0) == zero::<T>(),
{
    assert(neighbours_of(0, 1) =~= Seq::<usize>::empty());
    assert(energies_around(z, 0) =~= Seq::<Expr<T>>::empty());
}

proof fn lemma_single_slope<T>(m: Medium<T>, z: Waves<T>)
    requires
        z.r.len() == 1,
        z.s.len() == 1,
    ensures
        derivative_of(m, z).r.len() == 1,
        derivative_of(m, z).s.len() == 1,
        wave_at(derivative_of(m, z), 0) == band_slope(band_of(m, 0, zero()), wave_at(z, 0)),
{
    lemma_alone(z);
}

proof fn lemma_single_step<T>(m: Medium<T>, dt: Expr<T>, w: Seq<Expr<T>>, z: Waves<T>)
    requires
        z.r.len() == 1,
        z.s.len() == 1,
    ensures
        step_of(m, dt, w, z).r.len() == 1,
        step_of(m, dt, w, z).s.len() == 1,
        wave_at(step_of(m, dt, w, z), 0) == band_step(
            band_of(m, 0, zero()),
            dt,
            w,
            wave_at(z, 0),
        ),
{
    let k1 = derivative_of(m, z);
    lemma_single_slope(m, z);
    let z2 = halfway(z, dt, k1);
    let k2 = derivative_of(m, z2);
    lemma_single_slope(m, z2);
    let z3 = halfway(z, dt, k2);
    let k3 = derivative_of(m, z3);
    lemma_single_slope(m, z3);
    let z4 = ahead(z, dt, k3);
    lemma_single_slope(m, z4);
}

proof fn lemma_single_steps<T>(m: Medium<T>, dt: Expr<T>, w: Seq<Expr<T>>, z: Waves<T>, n: int)
    requires
        z.r.len() == 1,
        z.s.len() == 1,
    ensures
        steps_of(m, dt, w, z, n).r.len() == 1,
        steps_of(m, dt, w, z, n).s.len() == 1,
        wave_at(steps_of(m, dt, w, z, n), 0) == frozen_band(m, dt, w, z, 0, n),
    decreases n,
{
    lemma_alone(z);
    if n > 0 {
        lemma_single_steps(m, dt, w, z, n - 1);
        lemma_single_step(m, dt, w, steps_of(m, dt, w, z, n - 1));
    }
}

proof fn lemma_band_steps_join<T>(
    m: BandMedium<T>,
    dt: Expr<T>,
    w: Seq<Expr<T>>,
    z: Wave<T>,
    a: int,
    b: int,
)
    requires
        0 <= a,
        0 <= b,
    ensures
        band_steps(m, dt, w, band_steps(m, dt, w, z, a), b) == band_steps(m, dt, w, z, a + b),
    decreases b,
{
    if b > 0 {
        lemma_band_steps_join(m, dt, w, z, a, b - 1);
    }
}

/// A band that is alone has nothing around it: split or not, its integration is the same
/// formula.
pub proof fn law_single_band_needs_no_split<T>(w: KerrWeights<T>, x: Seq<T>)
    requires
        w.gamma_raw@.len() == 1,
    ensures
        split_end(w, x).r == final_of(w, val(w.chi), vals(x), None).r,
        split_end(w, x).s == final_of(w, val(w.chi), vals(x), None).s,
{
    let m = medium_of(w, val(w.chi));
    let dt = dt_of(w);
    let ws = vals(w.rk4_weights@);
    let z = split_start(w, x);
    let a = (w.rk4_n_steps / 2) as int;
    let b = w.rk4_n_steps - a;
    let total = w.rk4_n_steps as int;
    let mid = split_middle(w, x);
    let bm = band_of(m, 0, zero());
    lemma_alone(z);
    lemma_alone(mid);
    assert(wave_at(mid, 0) == band_steps(bm, dt, ws, wave_at(z, 0), a));
    lemma_band_steps_join(bm, dt, ws, wave_at(z, 0), a, b);
    assert(wave_at(split_end(w, x), 0) == band_steps(bm, dt, ws, wave_at(z, 0), total));
    lemma_single_steps(m, dt, ws, z, total);
    let whole = final_of(w, val(w.chi), vals(x), None);
    assert(wave_at(whole, 0) == wave_at(split_end(w, x), 0));
    assert(split_end(w, x).r =~= whole.r);
    assert(split_end(w, x).s =~= whole.s);
}

/// Gradients on the way back through a band: of its components, of its damping, of the
/// energy around it, of the two strengths and of the four weights.
pub struct BandBack<T> {
    pub d_r: Expr<T>,
    pub d_s: Expr<T>,
    pub d_gamma: Expr<T>,
    pub d_ns: Expr<T>,
    pub d_alpha: Expr<T>,
    pub d_beta: Expr<T>,
    pub d_w: Seq<Expr<T>>,
}

/// The way back through the slopes of a band at `z`, where `d` holds the gradients of the
/// slopes.
pub open spec fn band_slope_back<T>(
    m: BandMedium<T>,
    z: Wave<T>,
    d: Wave<T>,
    b: BandBack<T>,
) -> BandBack<T> {
    let phi = band_phi(m, z);
    let own = energy_of(z.r, z.s);
    let (r, s) = (z.r, z.s);
    BandBack {
        d_r: plus(
            plus(
                b.d_r,
                times(d.r, minus(un(Unary::Negated, m.gamma), twice(m.alpha, r, s))),
            ),
            times(d.s, plus(phi, twice(m.alpha, r, r))),
        ),
        d_s: plus(
            plus(b.d_s, times(d.r, minus(un(Unary::Negated, phi), twice(m.alpha, s, s)))),
            times(d.s, plus(un(Unary::Negated, m.gamma), twice(m.alpha, r, s))),
        ),
        d_gamma: plus(
            b.d_gamma,
            plus(times(d.r, un(Unary::Negated, r)), times(d.s, un(Unary::Negated, s))),
        ),
        d_ns: plus(
            b.d_ns,
            plus(
                times(d.r, times(un(Unary::Negated, m.beta), s)),
                times(d.s, times(m.beta, r)),
            ),
        ),
        d_alpha: plus(
            b.d_alpha,
            plus(
                times(d.r, times(un(Unary::Negated, own), s)),
                times(d.s, times(own, r)),
            ),
        ),
        d_beta: plus(
            b.d_beta,
            plus(
                times(d.r, times(un(Unary::Negated, m.ns), s)),
                times(d.s, times(m.ns, r)),
            ),
        ),
        d_w: b.d_w,
    }
}

/// What slope `i` gets of the gradients of the state after a step: `d * dt * w[i]`.
pub open spec fn weighed_share<T>(d: Wave<T>, dt: Expr<T>, w: Expr<T>) -> Wave<T> {
    Wave { r: times(times(d.r, dt), w), s: times(times(d.s, dt), w) }
}

/// What a weight gets of the gradients of the state after a step.
pub open spec fn weight_share<T>(d: Wave<T>, dt: Expr<T>, k: Wave<T>) -> Expr<T> {
    plus(times(times(d.r, dt), k.r), times(times(d.s, dt), k.s))
}

/// The gradients of the weights after a step.
pub open spec fn weights_back<T>(
    d: Wave<T>,
    dt: Expr<T>,
    p: BandStep<T>,
    d_w: Seq<Expr<T>>,
) -> Seq<Expr<T>> {
    grown(
        grown(
            grown(grown(d_w, 0, weight_share(d, dt, p.k1)), 1, weight_share(d, dt, p.k2)),
            2,
            weight_share(d, dt, p.k3),
        ),
        3,
        weight_share(d, dt, p.k4),
    )
}

/// A slope's gradients with those added that the state it led to passes on over a whole
/// step.
pub open spec fn passed<T>(c: Wave<T>, b: BandBack<T>, dt: Expr<T>) -> Wave<T> {
    Wave { r: plus(c.r, times(b.d_r, dt)), s: plus(c.s, times(b.d_s, dt)) }
}

/// A slope's gradients with those added that the state it led to passes on over half a
/// step.
pub open spec fn half_passed<T>(c: Wave<T>, b: BandBack<T>, dt: Expr<T>) -> Wave<T> {
    Wave {
        r: plus(c.r, times(times(b.d_r, Expr::Ratio(1, 2)), dt)),
        s: plus(c.s, times(times(b.d_s, Expr::Ratio(1, 2)), dt)),
    }
}

/// The gradients of parameters, with none yet of the components.
pub open spec fn band_fresh<T>(b: BandBack<T>) -> BandBack<T> {
    BandBack { d_r: zero(), d_s: zero(), ..b }
}

/// The way back through a step of a band from `z`: `b` holds the gradients of the state
/// after it, the result those of the state before it.
pub open spec fn band_step_back<T>(
    m: BandMedium<T>,
    dt: Expr<T>,
    w: Seq<Expr<T>>,
    z: Wave<T>,
    b: BandBack<T>,
) -> BandBack<T> {
    let p = band_points(m, dt, z);
    let d = Wave { r: b.d_r, s: b.d_s };
    let b0 = BandBack { d_w: weights_back(d, dt, p, b.d_w), ..b };
    let e0 = Wave { r: plus(zero(), d.r), s: plus(zero(), d.s) };
    let b4 = band_slope_back(m, p.z4, weighed_share(d, dt, w[3]), band_fresh(b0));
    let e1 = Wave { r: plus(e0.r, b4.d_r), s: plus(e0.s, b4.d_s) };
    let b3 = band_slope_back(
        m,
        p.z3,
        passed(weighed_share(d, dt, w[2]), b4, dt),
        band_fresh(b4),
    );
    let e2 = Wave { r: plus(e1.r, b3.d_r), s: plus(e1.s, b3.d_s) };
    let b2 = band_slope_back(
        m,
        p.z2,
        half_passed(weighed_share(d, dt, w[1]), b3, dt),
        band_fresh(b3),
    );
    let e3 = Wave { r: plus(e2.r, b2.d_r), s: plus(e2.s, b2.d_s) };
    let b1 = band_slope_back(
        m,
        z,
        half_passed(weighed_share(d, dt, w[0]), b2, dt),
        band_fresh(b2),
    );
    BandBack { d_r: plus(e3.r, b1.d_r), d_s: plus(e3.s, b1.d_s), ..b1 }
}

/// Gradients on the way back through a band, traced.
struct BandBackState<T> {
    d_r: Traced<T>,
    d_s: Traced<T>,
    d_gamma: Traced<T>,
    d_ns: Traced<T>,
    d_alpha: Traced<T>,
    d_beta: Traced<T>,
    d_w: TracedVec<T>,
}

impl<T: Copy> BandBackState<T> {
    spec fn ok<A: Arith<T>>(&self, ops: A) -> bool {
        &&& self.d_r.ok(ops)
        &&& self.d_s.ok(ops)
        &&& self.d_gamma.ok(ops)
        &&& self.d_ns.ok(ops)
        &&& self.d_alpha.ok(ops)
        &&& self.d_beta.ok(ops)
        &&& self.d_w.ok(ops)
        &&& self.d_w.v@.len() == 4
    }

    spec fn back(&self) -> BandBack<T> {
        BandBack {
            d_r: self.d_r.e@,
            d_s: self.d_s.e@,
            d_gamma: self.d_gamma.e@,
            d_ns: self.d_ns.e@,
            d_alpha: self.d_alpha.e@,
            d_beta: self.d_beta.e@,
            d_w: self.d_w.e@,
        }
    }
}

fn band_slope_back_on<T: Copy, A: Arith<T>>(
    ops: &A,
    m: BandParams<T>,
    z: Band<T>,
    d: Band<T>,
    b: BandBackState<T>,
) -> (out: BandBackState<T>)
    requires
        m.ok(*ops),
        z.ok(*ops),
        d.ok(*ops),
        b.ok(*ops),
    ensures
        out.ok(*ops),
        out.back() == band_slope_back(m.medium(), z.wave(), d.wave(), b.back()),
{
    let (r, s) = (z.r, z.s);
    let own: Traced<T> = energy_on(ops, r, s);
    let phi: Traced<T> = band_phi_on(ops, m, z);
    let loss: Traced<T> = m.gamma.negated(ops);
    let rs: Traced<T> = twice_on(ops, m.alpha, r, s);
    let d_r: Traced<T> = b.d_r.plus(ops, d.r.times(ops, loss.minus(ops, rs))).plus(
        ops,
        d.s.times(ops, phi.plus(ops, twice_on(ops, m.alpha, r, r))),
    );
    let d_s: Traced<T> = b.d_s.plus(
        ops,
        d.r.times(ops, phi.negated(ops).minus(ops, twice_on(ops, m.alpha, s, s))),
    ).plus(ops, d.s.times(ops, loss.plus(ops, rs)));
    let d_gamma: Traced<T> = b.d_gamma.plus(
        ops,
        d.r.times(ops, r.negated(ops)).plus(ops, d.s.times(ops, s.negated(ops))),
    );
    let d_ns: Traced<T> = b.d_ns.plus(
        ops,
        d.r.times(ops, m.beta.negated(ops).times(ops, s)).plus(
            ops,
            d.s.times(ops, m.beta.times(ops, r)),
        ),
    );
    let d_alpha: Traced<T> = b.d_alpha.plus(
        ops,
        d.r.times(ops, own.negated(ops).times(ops, s)).plus(
            ops,
            d.s.times(ops, own.times(ops, r)),
        ),
    );
    let d_beta: Traced<T> = b.d_beta.plus(
        ops,
        d.r.times(ops, m.ns.negated(ops).times(ops, s)).plus(
            ops,
            d.s.times(ops, m.ns.times(ops, r)),
        ),
    );
    BandBackState { d_r, d_s, d_gamma, d_ns, d_alpha, d_beta, d_w: b.d_w }
}

fn weighed_share_on<T: Copy, A: Arith<T>>(
    ops: &A,
    d: Band<T>,
    dt: Traced<T>,
    w: Traced<T>,
) -> (out: Band<T>)
    requires
        d.ok(*ops),
        dt.ok(*ops),
        w.ok(*ops),
    ensures
        out.ok(*ops),
        out.wave() == weighed_share(d.wave(), dt.e@, w.e@),
{
    Band { r: d.r.times(ops, dt).times(ops, w), s: d.s.times(ops, dt).times(ops, w) }
}

fn weight_share_on<T: Copy, A: Arith<T>>(
    ops: &A,
    d: Band<T>,
    dt: Traced<T>,
    k: Band<T>,
) -> (out: Traced<T>)
    requires
        d.ok(*ops),
        dt.ok(*ops),
        k.ok(*ops),
    ensures
        out.ok(*ops),
        out.e@ == weight_share(d.wave(), dt.e@, k.wave()),
{
    d.r.times(ops, dt).times(ops, k.r).plus(ops, d.s.times(ops, dt).times(ops, k.s))
}

fn half_passed_on<T: Copy, A: Arith<T>>(
    ops: &A,
    c: Band<T>,
    d_r: Traced<T>,
    d_s: Traced<T>,
    dt: Traced<T>,
) -> (out: Band<T>)
    requires
        c.ok(*ops),
        d_r.ok(*ops),
        d_s.ok(*ops),
        dt.ok(*ops),
    ensures
        out.ok(*ops),
        out.r.e@ == plus(c.r.e@, times(times(d_r.e@, Expr::Ratio(1, 2)), dt.e@)),
        out.s.e@ == plus(c.s.e@, times(times(d_s.e@, Expr::Ratio(1, 2)), dt.e@)),
{
    let half: Traced<T> = Traced::ratio(ops, 1, 2);
    Band {
        r: c.r.plus(ops, d_r.times(ops, half).times(ops, dt)),
        s: c.s.plus(ops, d_s.times(ops, half).times(ops, dt)),
    }
}

fn band_fresh_on<T: Copy, A: Arith<T>>(ops: &A, b: BandBackState<T>) -> (out: BandBackState<T>)
    requires
        b.ok(*ops),
    ensures
        out.ok(*ops),
        out.back() == band_fresh(b.back()),
{
    BandBackState { d_r: Traced::ratio(ops, 0, 1), d_s: Traced::ratio(ops, 0, 1), ..b }
}

fn band_step_back_on<T: Copy, A: Arith<T>>(
    ops: &A,
    m: BandParams<T>,
    dt: Traced<T>,
    w: &TracedVec<T>,
    z: Band<T>,
    b: BandBackState<T>,
) -> (out: BandBackState<T>)
    requires
        m.ok(*ops),
        dt.ok(*ops),
        w.ok(*ops),
        w.v@.len() == 4,
        z.ok(*ops),
        b.ok(*ops),
    ensures
        out.ok(*ops),
        out.back() == band_step_back(m.medium(), dt.e@, w.e@, z.wave(), b.back()),
{
    let p: BandTrace<T> = band_points_on(ops, m, dt, z);
    let ghost bb = b.back();
    let d: Band<T> = Band { r: b.d_r, s: b.d_s };
    let mut d_w: TracedVec<T> = b.d_w;
    d_w.grow(ops, 0, weight_share_on(ops, d, dt, p.k1));
    d_w.grow(ops, 1, weight_share_on(ops, d, dt, p.k2));
    d_w.grow(ops, 2, weight_share_on(ops, d, dt, p.k3));
    d_w.grow(ops, 3, weight_share_on(ops, d, dt, p.k4));
    let b0: BandBackState<T> = BandBackState {
        d_r: b.d_r,
        d_s: b.d_s,
        d_gamma: b.d_gamma,
        d_ns: b.d_ns,
        d_alpha: b.d_alpha,
        d_beta: b.d_beta,
        d_w,
    };
    let e0: Band<T> = Band {
        r: Traced::ratio(ops, 0, 1).plus(ops, d.r),
        s: Traced::ratio(ops, 0, 1).plus(ops, d.s),
    };
    let f4: BandBackState<T> = band_fresh_on(ops, b0);
    let b4: BandBackState<T> = band_slope_back_on(
        ops,
        m,
        p.z4,
        weighed_share_on(ops, d, dt, w.get(ops, 3)),
        f4,
    );
    let (b4r, b4s) = (b4.d_r, b4.d_s);
    let e1: Band<T> = Band { r: e0.r.plus(ops, b4r), s: e0.s.plus(ops, b4s) };
    let c3: Band<T> = weighed_share_on(ops, d, dt, w.get(ops, 2));
    let in3: Band<T> = Band {
        r: c3.r.plus(ops, b4r.times(ops, dt)),
        s: c3.s.plus(ops, b4s.times(ops, dt)),
    };
    let f3: BandBackState<T> = band_fresh_on(ops, b4);
    let b3: BandBackState<T> = band_slope_back_on(ops, m, p.z3, in3, f3);
    let (b3r, b3s) = (b3.d_r, b3.d_s);
    let e2: Band<T> = Band { r: e1.r.plus(ops, b3r), s: e1.s.plus(ops, b3s) };
    let in2: Band<T> = half_passed_on(
        ops,
        weighed_share_on(ops, d, dt, w.get(ops, 1)),
        b3r,
        b3s,
        dt,
    );
    let f2: BandBackState<T> = band_fresh_on(ops, b3);
    let b2: BandBackState<T> = band_slope_back_on(ops, m, p.z2, in2, f2);
    let (b2r, b2s) = (b2.d_r, b2.d_s);
    let e3: Band<T> = Band { r: e2.r.plus(ops, b2r), s: e2.s.plus(ops, b2s) };
    let in1: Band<T> = half_passed_on(
        ops,
        weighed_share_on(ops, d, dt, w.get(ops, 0)),
        b2r,
        b2s,
        dt,
    );
    let f1: BandBackState<T> = band_fresh_on(ops, b2);
    let b1: BandBackState<T> = band_slope_back_on(ops, m, z, in1, f1);
    let (b1r, b1s) = (b1.d_r, b1.d_s);
    BandBackState { d_r: e3.r.plus(ops, b1r), d_s: e3.s.plus(ops, b1s), ..b1 }
}

/// Gradients on the way back through all bands.
pub struct SplitBack<T> {
    pub d_r: Seq<Expr<T>>,
    pub d_s: Seq<Expr<T>>,
    pub d_gamma: Seq<Expr<T>>,
    pub d_ns: Seq<Expr<T>>,
    pub d_alpha: Expr<T>,
    pub d_beta: Expr<T>,
    pub d_w: Seq<Expr<T>>,
}

/// The gradients of band `k`, and those that the bands share.
pub open spec fn back_at<T>(b: SplitBack<T>, k: int) -> BandBack<T> {
    BandBack {
        d_r: b.d_r[k],
        d_s: b.d_s[k],
        d_gamma: b.d_gamma[k],
        d_ns: b.d_ns[k],
        d_alpha: b.d_alpha,
        d_beta: b.d_beta,
        d_w: b.d_w,
    }
}

/// The gradients with those of band `k` replaced.
pub open spec fn back_with<T>(b: SplitBack<T>, k: int, x: BandBack<T>) -> SplitBack<T> {
    SplitBack {
        d_r: b.d_r.update(k, x.d_r),
        d_s: b.d_s.update(k, x.d_s),
        d_gamma: b.d_gamma.update(k, x.d_gamma),
        d_ns: b.d_ns.update(k, x.d_ns),
        d_alpha: x.d_alpha,
        d_beta: x.d_beta,
        d_w: x.d_w,
    }
}

/// The way back through a step of the first `n` bands.
pub open spec fn row_back<T>(
    m: Medium<T>,
    ns: Seq<Expr<T>>,
    dt: Expr<T>,
    w: Seq<Expr<T>>,
    z: Waves<T>,
    b: SplitBack<T>,
    n: int,
) -> SplitBack<T>
    decreases n,
{
    if n <= 0 {
        b
    } else {
        let before = row_back(m, ns, dt, w, z, b, n - 1);
        back_with(
            before,
            n - 1,
            band_step_back(
                band_of(m, n - 1, ns[n - 1]),
                dt,
                w,
                wave_at(z, n - 1),
                back_at(before, n - 1),
            ),
        )
    }
}

/// All bands before step `i`, as half of an integration kept them.
pub open spec fn kept_at<T>(state_r: Seq<Vec<T>>, state_s: Seq<Vec<T>>, i: int) -> Waves<T> {
    Waves {
        r: Seq::new(state_r.len(), |k: int| val(state_r[k]@[i])),
        s: Seq::new(state_r.len(), |k: int| val(state_s[k]@[i])),
    }
}

/// The way back through half of an integration, from its end down to step `i`.
pub open spec fn half_back<T>(
    m: Medium<T>,
    ns: Seq<Expr<T>>,
    dt: Expr<T>,
    w: Seq<Expr<T>>,
    state_r: Seq<Vec<T>>,
    state_s: Seq<Vec<T>>,
    b: SplitBack<T>,
    steps: int,
    i: int,
) -> SplitBack<T>
    decreases steps - i,
{
    if i >= steps {
        b
    } else {
        row_back(
            m,
            ns,
            dt,
            w,
            kept_at(state_r, state_s, i),
            half_back(m, ns, dt, w, state_r, state_s, b, steps, i + 1),
            state_r.len() as int,
        )
    }
}

/// The gradients of a state with those added that the energy around a band passes on to
/// its first `n` neighbours: `dk * 2 * component`.
pub open spec fn spread_back<T>(
    z: Waves<T>,
    dk: Expr<T>,
    d: Waves<T>,
    js: Seq<usize>,
    n: int,
) -> Waves<T>
    decreases n,
{
    if n <= 0 {
        d
    } else {
        let e = spread_back(z, dk, d, js, n - 1);
        let j = js[n - 1] as int;
        Waves {
            r: grown(e.r, j, times(times(dk, two()), z.r[j])),
            s: grown(e.s, j, times(times(dk, two()), z.s[j])),
        }
    }
}

/// The gradients of a state with those added that the energy around band `k` passes on,
/// unless that has none.
pub open spec fn around_back_at<T>(z: Waves<T>, dk: Expr<T>, d: Waves<T>, k: int) -> Waves<T> {
    let js = neighbours_of(k, z.r.len() as int);
    let e = spread_back(z, dk, d, js, js.len() as int);
    Waves {
        r: Seq::new(d.r.len(), |j: int| pick(Test::Equals, dk, zero(), d.r[j], e.r[j])),
        s: Seq::new(d.s.len(), |j: int| pick(Test::Equals, dk, zero(), d.s[j], e.s[j])),
    }
}

/// The gradients of a state with those added that the energies around the first `n` bands
/// pass on.
pub open spec fn around_back<T>(
    z: Waves<T>,
    d_ns: Seq<Expr<T>>,
    d: Waves<T>,
    n: int,
) -> Waves<T>
    decreases n,
{
    if n <= 0 {
        d
    } else {
        around_back_at(z, d_ns[n - 1], around_back(z, d_ns, d, n - 1), n - 1)
    }
}

/// The medium that a cache was made in.
pub open spec fn split_medium<T>(c: SplitBandForwardCache<T>, w: KerrWeights<T>) -> Medium<T> {
    Medium {
        gamma: vals(c.gamma@),
        omega: vals(w.omega@),
        alpha: val(w.alpha),
        beta: val(w.beta),
        chi: val(w.chi),
    }
}

/// Zeros.
pub open spec fn zeros_of<T>(n: int) -> Seq<Expr<T>> {
    Seq::new(n as nat, |i: int| zero::<T>())
}

/// The gradients at the end of an integration.
pub open spec fn split_end_back<T>(d_output: Seq<T>, n: int) -> SplitBack<T> {
    let d = waves_of(vals(d_output), n);
    SplitBack {
        d_r: d.r,
        d_s: d.s,
        d_gamma: zeros_of(n),
        d_ns: zeros_of(n),
        d_alpha: zero(),
        d_beta: zero(),
        d_w: zeros_of(4),
    }
}

/// The gradients after a half, passed on through the energies that were frozen in it.
pub open spec fn refreshed<T>(z: Waves<T>, b: SplitBack<T>, n: int) -> SplitBack<T> {
    let d = around_back(z, b.d_ns, Waves { r: b.d_r, s: b.d_s }, n);
    SplitBack { d_r: d.r, d_s: d.s, d_ns: zeros_of(n), ..b }
}

/// Steps of the first half that a cache holds.
pub open spec fn steps_in<T>(state_r: Seq<Vec<T>>) -> int {
    state_r[0]@.len() - 1
}

/// The gradients of a split integration's input and parameters.
pub open spec fn split_back<T>(
    d_output: Seq<T>,
    c: SplitBandForwardCache<T>,
    w: KerrWeights<T>,
) -> SplitBack<T> {
    let n = c.n_bands as int;
    let m = split_medium(c, w);
    let ws = vals(w.rk4_weights@);
    let (sa, sb) = (steps_in(c.a_state_r@), steps_in(c.b_state_r@));
    let b1 = half_back(
        m,
        vals(c.ns_frozen_b@),
        val(c.dt),
        ws,
        c.b_state_r@,
        c.b_state_s@,
        split_end_back(d_output, n),
        sb,
        0,
    );
    let b2 = refreshed(kept_at(c.a_state_r@, c.a_state_s@, sa), b1, n);
    let b3 = half_back(
        m,
        vals(c.ns_frozen_a@),
        val(c.dt),
        ws,
        c.a_state_r@,
        c.a_state_s@,
        b2,
        sa,
        0,
    );
    refreshed(kept_at(c.a_state_r@, c.a_state_s@, 0), b3, n)
}

/// Gradients on the way back through all bands, traced.
struct SplitBackState<T> {
    d_r: TracedVec<T>,
    d_s: TracedVec<T>,
    d_gamma: TracedVec<T>,
    d_ns: TracedVec<T>,
    d_alpha: Traced<T>,
    d_beta: Traced<T>,
    d_w: TracedVec<T>,
}

impl<T: Copy> SplitBackState<T> {
    spec fn ok<A: Arith<T>>(&self, ops: A, n: int) -> bool {
        &&& self.d_r.ok(ops)
        &&& self.d_s.ok(ops)
        &&& self.d_gamma.ok(ops)
        &&& self.d_ns.ok(ops)
        &&& self.d_alpha.ok(ops)
        &&& self.d_beta.ok(ops)
        &&& self.d_w.ok(ops)
        &&& self.d_r.v@.len() == n
        &&& self.d_s.v@.len() == n
        &&& self.d_gamma.v@.len() == n
        &&& self.d_ns.v@.len() == n
        &&& self.d_w.v@.len() == 4
    }

    spec fn back(&self) -> SplitBack<T> {
        SplitBack {
            d_r: self.d_r.e@,
            d_s: self.d_s.e@,
            d_gamma: self.d_gamma.e@,
            d_ns: self.d_ns.e@,
            d_alpha: self.d_alpha.e@,
            d_beta: self.d_beta.e@,
            d_w: self.d_w.e@,
        }
    }
}

fn row_back_on<T: Copy, A: Arith<T>>(
    ops: &A,
    m: &Params<T>,
    ns: &TracedVec<T>,
    dt: Traced<T>,
    w: &TracedVec<T>,
    z: &State<T>,
    b: SplitBackState<T>,
) -> (out: SplitBackState<T>)
    requires
        z.ok(*ops, z.r.v@.len() as int),
        m.ok(*ops, z.r.v@.len() as int),
        ns.ok(*ops),
        ns.v@.len() >= z.r.v@.len(),
        dt.ok(*ops),
        w.ok(*ops),
        w.v@.len() == 4,
        b.ok(*ops, z.r.v@.len() as int),
    ensures
        out.ok(*ops, z.r.v@.len() as int),
        out.back() == row_back(
            m.medium(),
            ns.e@,
            dt.e@,
            w.e@,
            z.waves(),
            b.back(),
            z.r.v@.len() as int,
        ),
{
    let n: usize = z.r.len();
    let ghost b0 = b.back();
    let mut acc: SplitBackState<T> = b;
    let mut k: usize = 0;
    while k < n
        invariant
            z.ok(*ops, n as int),
            m.ok(*ops, n as int),
            ns.ok(*ops),
            ns.v@.len() >= n,
            dt.ok(*ops),
            w.ok(*ops),
            w.v@.len() == 4,
            k <= n,
            acc.ok(*ops, n as int),
            acc.back() == row_back(
                m.medium(),
                ns.e@,
                dt.e@,
                w.e@,
                z.waves(),
                b0,
                k as int,
            ),
        decreases n - k,
    {
        let ghost before = acc.back();
        let band: BandParams<T> = BandParams {
            gamma: m.gamma.get(ops, k),
            omega: m.omega.get(ops, k),
            alpha: m.alpha,
            beta: m.beta,
            ns: ns.get(ops, k),
        };
        assert(band.medium() == band_of(m.medium(), k as int, ns.e@[k as int]));
        let now: Band<T> = Band { r: z.r.get(ops, k), s: z.s.get(ops, k) };
        let mut d_r: TracedVec<T> = acc.d_r;
        let mut d_s: TracedVec<T> = acc.d_s;
        let mut d_gamma: TracedVec<T> = acc.d_gamma;
        let mut d_ns: TracedVec<T> = acc.d_ns;
        let one: BandBackState<T> = BandBackState {
            d_r: d_r.get(ops, k),
            d_s: d_s.get(ops, k),
            d_gamma: d_gamma.get(ops, k),
            d_ns: d_ns.get(ops, k),
            d_alpha: acc.d_alpha,
            d_beta: acc.d_beta,
            d_w: acc.d_w,
        };
        assert(one.back() == back_at(before, k as int));
        let next: BandBackState<T> = band_step_back_on(ops, band, dt, w, now, one);
        d_r.set(ops, k, next.d_r);
        d_s.set(ops, k, next.d_s);
        d_gamma.set(ops, k, next.d_gamma);
        d_ns.set(ops, k, next.d_ns);
        acc = SplitBackState {
            d_r,
            d_s,
            d_gamma,
            d_ns,
            d_alpha: next.d_alpha,
            d_beta: next.d_beta,
            d_w: next.d_w,
        };
        assert(acc.back() == back_with(before, k as int, next.back()));
        k += 1;
    }
    acc
}

/// All bands before step `i`, traced.
fn kept_on<T: Copy, A: Arith<T>>(
    ops: &A,
    state_r: &Vec<Vec<T>>,
    state_s: &Vec<Vec<T>>,
    i: usize,
) -> (out: State<T>)
    requires
        state_r@.len() == state_s@.len(),
        forall|k: int| 0 <= k < state_r@.len() ==> i < (#[trigger] state_r@[k])@.len(),
        forall|k: int| 0 <= k < state_s@.len() ==> i < (#[trigger] state_s@[k])@.len(),
    ensures
        out.ok(*ops, state_r@.len() as int),
        out.waves() == kept_at(state_r@, state_s@, i as int),
{
    let n: usize = state_r.len();
    let ghost want = kept_at(state_r@, state_s@, i as int);
    let mut r: TracedVec<T> = TracedVec::new(ops);
    let mut s: TracedVec<T> = TracedVec::new(ops);
    let mut k: usize = 0;
    assert(r.e@ =~= want.r.take(0));
    assert(s.e@ =~= want.s.take(0));
    while k < n
        invariant
            n == state_r@.len(),
            n == state_s@.len(),
            forall|k: int| 0 <= k < state_r@.len() ==> i < (#[trigger] state_r@[k])@.len(),
            forall|k: int| 0 <= k < state_s@.len() ==> i < (#[trigger] state_s@[k])@.len(),
            want == kept_at(state_r@, state_s@, i as int),
            k <= n,
            r.ok(*ops),
            s.ok(*ops),
            r.e@ == want.r.take(k as int),
            s.e@ == want.s.take(k as int),
        decreases n - k,
    {
        assert(i < state_r@[k as int]@.len());
        assert(i < state_s@[k as int]@.len());
        let rs: &Vec<T> = &state_r[k];
        let ss: &Vec<T> = &state_s[k];
        r.push(ops, Traced::of(ops, rs[i]));
        s.push(ops, Traced::of(ops, ss[i]));
        k += 1;
        assert(r.e@ =~= want.r.take(k as int));
        assert(s.e@ =~= want.s.take(k as int));
    }
    assert(want.r.take(n as int) =~= want.r);
    assert(want.s.take(n as int) =~= want.s);
    State { r, s }
}

/// States of `n` bands before each of `steps` steps and after the last.
pub open spec fn states_shaped<T>(
    state_r: Seq<Vec<T>>,
    state_s: Seq<Vec<T>>,
    n: int,
    steps: int,
) -> bool {
    &&& state_r.len() == n
    &&& state_s.len() == n
    &&& forall|k: int| 0 <= k < n ==> (#[trigger] state_r[k])@.len() == steps + 1
    &&& forall|k: int| 0 <= k < n ==> (#[trigger] state_s[k])@.len() == steps + 1
}

fn half_back_on<T: Copy, A: Arith<T>>(
    ops: &A,
    m: &Params<T>,
    ns: &TracedVec<T>,
    dt: Traced<T>,
    w: &TracedVec<T>,
    state_r: &Vec<Vec<T>>,
    state_s: &Vec<Vec<T>>,
    b: SplitBackState<T>,
    steps: usize,
) -> (out: SplitBackState<T>)
    requires
        states_shaped(state_r@, state_s@, state_r@.len() as int, steps as int),
        m.ok(*ops, state_r@.len() as int),
        ns.ok(*ops),
        ns.v@.len() >= state_r@.len(),
        dt.ok(*ops),
        w.ok(*ops),
        w.v@.len() == 4,
        b.ok(*ops, state_r@.len() as int),
    ensures
        out.ok(*ops, state_r@.len() as int),
        out.back() == half_back(
            m.medium(),
            ns.e@,
            dt.e@,
            w.e@,
            state_r@,
            state_s@,
            b.back(),
            steps as int,
            0,
        ),
{
    let ghost n = state_r@.len() as int;
    let ghost b0 = b.back();
    let mut acc: SplitBackState<T> = b;
    let mut i: usize = steps;
    while i > 0
        invariant
            n == state_r@.len(),
            states_shaped(state_r@, state_s@, n, steps as int),
            m.ok(*ops, n),
            ns.ok(*ops),
            ns.v@.len() >= n,
            dt.ok(*ops),
            w.ok(*ops),
            w.v@.len() == 4,
            i <= steps,
            acc.ok(*ops, n),
            acc.back() == half_back(
                m.medium(),
                ns.e@,
                dt.e@,
                w.e@,
                state_r@,
                state_s@,
                b0,
                steps as int,
                i as int,
            ),
        decreases i,
    {
        i -= 1;
        let z: State<T> = kept_on(ops, state_r, state_s, i);
        acc = row_back_on(ops, m, ns, dt, w, &z, acc);
    }
    acc
}

/// The gradients of a state with those added that the energies around the bands pass on,
/// traced.
fn around_back_on<T: Copy, A: Arith<T>>(
    ops: &A,
    z: &State<T>,
    d_ns: &TracedVec<T>,
    d: State<T>,
) -> (out: State<T>)
    requires
        z.ok(*ops, z.r.v@.len() as int),
        d_ns.ok(*ops),
        d_ns.v@.len() == z.r.v@.len(),
        d.ok(*ops, z.r.v@.len() as int),
        z.r.v@.len() <= usize::MAX - 2,
    ensures
        out.ok(*ops, z.r.v@.len() as int),
        out.waves() == around_back(z.waves(), d_ns.e@, d.waves(), z.r.v@.len() as int),
{
    let n: usize = z.r.len();
    let ghost zw = z.waves();
    let ghost d0 = d.waves();
    let pair: Traced<T> = Traced::ratio(ops, 2, 1);
    let nought: Traced<T> = Traced::ratio(ops, 0, 1);
    let mut acc: State<T> = d;
    let mut k: usize = 0;
    while k < n
        invariant
            z.ok(*ops, n as int),
            zw == z.waves(),
            d_ns.ok(*ops),
            d_ns.v@.len() == n,
            n <= usize::MAX - 2,
            pair.ok(*ops),
            pair.e@ == two::<T>(),
            nought.ok(*ops),
            nought.e@ == zero::<T>(),
            k <= n,
            acc.ok(*ops, n as int),
            acc.waves() == around_back(zw, d_ns.e@, d0, k as int),
        decreases n - k,
    {
        let dk: Traced<T> = d_ns.get(ops, k);
        let ghost before = acc.waves();
        let ghost js_of = neighbours_of(k as int, n as int);
        let ghost spread = spread_back(zw, dk.e@, before, js_of, js_of.len() as int);
        let ghost want = around_back_at(zw, dk.e@, before, k as int);
        let none: bool = ops.equals(dk.v, nought.v);
        assert(test_is(*ops, Test::Equals, dk.v, nought.v, none));
        let mut r: TracedVec<T> = acc.r;
        let mut s: TracedVec<T> = acc.s;
        if !none {
            let js: Vec<usize> = neighbours(k, n);
            let count: usize = js.len();
            let step: Traced<T> = dk.times(ops, pair);
            let mut i: usize = 0;
            while i < count
                invariant
                    z.ok(*ops, n as int),
                    zw == z.waves(),
                    k < n,
                    js@ == neighbours_of(k as int, n as int),
                    count == js@.len(),
                    step.ok(*ops),
                    step.e@ == times(dk.e@, two()),
                    i <= count,
                    r.ok(*ops),
                    s.ok(*ops),
                    r.v@.len() == n,
                    s.v@.len() == n,
                    (Waves { r: r.e@, s: s.e@ }) == spread_back(
                        zw,
                        dk.e@,
                        before,
                        js@,
                        i as int,
                    ),
                decreases count - i,
            {
                let j: usize = js[i];
                assert(j < n);
                r.grow(ops, j, step.times(ops, z.r.get(ops, j)));
                s.grow(ops, j, step.times(ops, z.s.get(ops, j)));
                i += 1;
            }
            assert(r.e@ == spread.r);
            assert(s.e@ == spread.s);
        }
        proof {
            assert forall|j: int| 0 <= j < n implies fits(*ops, want.r[j], #[trigger] r.v@[j]) by {
                assert(fits(*ops, r.e@[j], r.v@[j]));
            }
            assert forall|j: int| 0 <= j < n implies fits(*ops, want.s[j], #[trigger] s.v@[j]) by {
                assert(fits(*ops, s.e@[j], s.v@[j]));
            }
        }
        acc = State {
            r: TracedVec { v: r.v, e: Ghost(want.r) },
            s: TracedVec { v: s.v, e: Ghost(want.s) },
        };
        k += 1;
    }
    acc
}

fn refreshed_on<T: Copy, A: Arith<T>>(ops: &A, z: &State<T>, b: SplitBackState<T>) -> (out:
    SplitBackState<T>)
    requires
        z.ok(*ops, z.r.v@.len() as int),
        b.ok(*ops, z.r.v@.len() as int),
        z.r.v@.len() <= usize::MAX - 2,
    ensures
        out.ok(*ops, z.r.v@.len() as int),
        out.back() == refreshed(z.waves(), b.back(), z.r.v@.len() as int),
{
    let n: usize = z.r.len();
    let d: State<T> = around_back_on(ops, z, &b.d_ns, State { r: b.d_r, s: b.d_s });
    SplitBackState {
        d_r: d.r,
        d_s: d.s,
        d_gamma: b.d_gamma,
        d_ns: TracedVec::zeros(ops, n),
        d_alpha: b.d_alpha,
        d_beta: b.d_beta,
        d_w: b.d_w,
    }
}

/// The gradients of a layer's parameters, out of a split integration.
pub struct SplitBandGrads<T> {
    pub d_gamma_raw: Vec<T>,
    pub d_alpha: T,
    pub d_beta: T,
    pub d_chi: T,
    pub d_rk4_weights: Vec<T>,
}

/// A cache of a split integration of a layer.
pub open spec fn split_shaped<T>(c: SplitBandForwardCache<T>, w: KerrWeights<T>) -> bool {
    let n = c.n_bands as int;
    &&& 0 < n
    &&& 2 * n <= usize::MAX
    &&& n <= c.gamma@.len()
    &&& n <= w.omega@.len()
    &&& n <= w.gamma_raw@.len()
    &&& n <= c.ns_frozen_a@.len()
    &&& n <= c.ns_frozen_b@.len()
    &&& states_shaped(c.a_state_r@, c.a_state_s@, n, steps_in(c.a_state_r@))
    &&& states_shaped(c.b_state_r@, c.b_state_s@, n, steps_in(c.b_state_r@))
    &&& 0 <= steps_in(c.a_state_r@)
    &&& 0 <= steps_in(c.b_state_r@)
}

/// The gradients of a layer's input and parameters, out of those of a split integration's
/// output.
pub fn split_band_backward<T: Copy, A: Arith<T>>(
    ops: &A,
    d_output: &[T],
    cache: &SplitBandForwardCache<T>,
    weights: &KerrWeights<T>,
) -> (res: (Vec<T>, SplitBandGrads<T>))
    requires
        split_shaped(*cache, *weights),
        2 * cache.n_bands <= d_output@.len(),
    ensures
        ({
            let b = split_back(d_output@, *cache, *weights);
            &&& fits_all(*ops, woven_of(Waves { r: b.d_r, s: b.d_s }), res.0@)
            &&& fits_all(*ops, raw_of(b.d_gamma, weights.gamma_raw@), res.1.d_gamma_raw@)
            &&& fits(*ops, b.d_alpha, res.1.d_alpha)
            &&& fits(*ops, b.d_beta, res.1.d_beta)
            &&& fits(*ops, zero(), res.1.d_chi)
            &&& fits_all(*ops, b.d_w, res.1.d_rk4_weights@)
        }),
{
    let n: usize = cache.n_bands;
    let steps_a: usize = cache.a_state_r[0].len() - 1;
    let steps_b: usize = cache.b_state_r[0].len() - 1;
    let dt: Traced<T> = Traced::of(ops, cache.dt);
    let m: Params<T> = Params {
        gamma: traced(ops, &cache.gamma),
        omega: traced(ops, &weights.omega),
        alpha: Traced::of(ops, weights.alpha),
        beta: Traced::of(ops, weights.beta),
        chi: Traced::of(ops, weights.chi),
    };
    assert(m.medium() == split_medium(*cache, *weights));
    let w: TracedVec<T> = four_on(ops, &weights.rk4_weights);
    let ns_a: TracedVec<T> = traced(ops, &cache.ns_frozen_a);
    let ns_b: TracedVec<T> = traced(ops, &cache.ns_frozen_b);
    let d: State<T> = waves_on(ops, &traced(ops, d_output), n);
    assert(d.waves() == waves_of(vals(d_output@), n as int));
    let end: SplitBackState<T> = SplitBackState {
        d_r: d.r,
        d_s: d.s,
        d_gamma: TracedVec::zeros(ops, n),
        d_ns: TracedVec::zeros(ops, n),
        d_alpha: Traced::ratio(ops, 0, 1),
        d_beta: Traced::ratio(ops, 0, 1),
        d_w: TracedVec::zeros(ops, 4),
    };
    assert(end.back() == split_end_back(d_output@, n as int));
    assert(n <= usize::MAX - 2);
    let b1: SplitBackState<T> = half_back_on(
        ops,
        &m,
        &ns_b,
        dt,
        &w,
        &cache.b_state_r,
        &cache.b_state_s,
        end,
        steps_b,
    );
    let mid: State<T> = kept_on(ops, &cache.a_state_r, &cache.a_state_s, steps_a);
    let b2: SplitBackState<T> = refreshed_on(ops, &mid, b1);
    let b3: SplitBackState<T> = half_back_on(
        ops,
        &m,
        &ns_a,
        dt,
        &w,
        &cache.a_state_r,
        &cache.a_state_s,
        b2,
        steps_a,
    );
    let start: State<T> = kept_on(ops, &cache.a_state_r, &cache.a_state_s, 0);
    let b4: SplitBackState<T> = refreshed_on(ops, &start, b3);
    assert(b4.back() == split_back(d_output@, *cache, *weights));
    let d_gamma_raw: TracedVec<T> = raw_on(ops, &b4.d_gamma, &weights.gamma_raw);
    let nought: Traced<T> = Traced::ratio(ops, 0, 1);
    let back: State<T> = State { r: b4.d_r, s: b4.d_s };
    let d_x: TracedVec<T> = woven_on(ops, &back);
    (
        d_x.v,
        SplitBandGrads {
            d_gamma_raw: d_gamma_raw.v,
            d_alpha: b4.d_alpha.v,
            d_beta: b4.d_beta.v,
            d_chi: nought.v,
            d_rk4_weights: b4.d_w.v,
        },
    )
}

} // verus!
