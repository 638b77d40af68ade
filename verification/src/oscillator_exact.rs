//! In exact arithmetic: how oscillators move.

use vstd::prelude::*;
#[allow(unused_imports)]
use crate::arith::{Expr, times};
#[allow(unused_imports)]
use crate::averages::lemma_quotient_undone;
#[allow(unused_imports)]
use crate::exact::{Curves, Dual, prod, value};
#[allow(unused_imports)]
use crate::gpu_ode::{GpuOdeParams, energies_of, padded, perturbed_of, spun_of, turns_of};
#[allow(unused_imports)]
use crate::kerr::{Medium, Waves, ahead, derivative_of, drift_of, dt_of, halfway, phi_of, step_of};
#[allow(unused_imports)]
use crate::structure_exact::{energy_in, law_energy_around_is_the_neighbours};
#[allow(unused_imports)]
use crate::values::group_value;
#[allow(unused_imports)]
use crate::weights::KerrWeights;

verus! {

/// The entries of waves, two for each band.
pub open spec fn entries_are(cu: Curves, z: Waves<Dual>, x: spec_fn(int) -> real) -> bool {
    &&& z.s.len() == z.r.len()
    &&& forall|j: int| 0 <= j < z.r.len() ==> value(cu, #[trigger] z.r[j]) == x(2 * j)
    &&& forall|j: int| 0 <= j < z.s.len() ==> value(cu, #[trigger] z.s[j]) == x(2 * j + 1)
}

#[verifier::spinoff_prover]
proof fn lemma_turning(g: real, f: real, r: real, s: real)
    ensures
        ({
            let a = prod(-g, r) - prod(f, s);
            let b = prod(-g, s) + prod(f, r);
            &&& prod(r, a) + prod(s, b) == -prod(g, prod(r, r) + prod(s, s))
            &&& prod(r, b) - prod(s, a) == prod(f, prod(r, r) + prod(s, s))
        }),
{
    reveal(prod);
    assert(r * ((-g) * r - f * s) + s * ((-g) * s + f * r) == -(g * (r * r + s * s)))
        by (nonlinear_arith);
    assert(r * ((-g) * s + f * r) - s * ((-g) * r - f * s) == f * (r * r + s * s))
        by (nonlinear_arith);
}

/// A band by itself loses energy at the rate of its damping, and turns at the rate of its
/// frequency, of its own energy and of the energy of the two bands on either side, each by its
/// coupling.
#[verifier::spinoff_prover]
pub proof fn law_bands_damp_and_turn(
    cu: Curves,
    m: Medium<Dual>,
    z: Waves<Dual>,
    x: spec_fn(int) -> real,
    k: int,
)
    requires
        0 <= k < z.r.len() <= usize::MAX,
        entries_are(cu, z, x),
    ensures
        ({
            let n = z.r.len() as int;
            let d = drift_of(m, z);
            let (r, s) = (x(2 * k), x(2 * k + 1));
            let (a, b) = (value(cu, d.r[k]), value(cu, d.s[k]));
            let own = energy_in(x, n, k);
            let around = energy_in(x, n, k - 2) + energy_in(x, n, k - 1) + energy_in(x, n, k + 1)
                + energy_in(x, n, k + 2);
            let turn = value(cu, m.omega[k]) + prod(value(cu, m.alpha), own) + prod(
                value(cu, m.beta),
                around,
            );
            &&& prod(r, a) + prod(s, b) == -prod(value(cu, m.gamma[k]), own)
            &&& prod(r, b) - prod(s, a) == prod(turn, own)
        }),
{
    broadcast use group_value;

    law_energy_around_is_the_neighbours(cu, z, x, k);
    assert(value(cu, z.r[k]) == x(2 * k));
    assert(value(cu, z.s[k]) == x(2 * k + 1));
    lemma_turning(
        value(cu, m.gamma[k]),
        value(cu, phi_of(m, z, k)),
        x(2 * k),
        x(2 * k + 1),
    );
}

/// Up to four bands, or without four-wave mixing, bands move by themselves alone.
#[verifier::spinoff_prover]
pub proof fn law_without_mixing_bands_drift(cu: Curves, m: Medium<Dual>, z: Waves<Dual>, k: int)
    requires
        0 <= k < z.r.len(),
        z.r.len() <= 4 || value(cu, m.chi) == 0real,
    ensures
        value(cu, derivative_of(m, z).r[k]) == value(cu, drift_of(m, z).r[k]),
        value(cu, derivative_of(m, z).s[k]) == value(cu, drift_of(m, z).s[k]),
{
    broadcast use group_value;

}

/// A step moves a state by its length times the weighted slopes at four points: the state, twice
/// the point half a step on along the slope before, and the point a step on along the third.
#[verifier::spinoff_prover]
pub proof fn law_step_follows_four_slopes(
    cu: Curves,
    m: Medium<Dual>,
    dt: Expr<Dual>,
    w: Seq<Expr<Dual>>,
    z: Waves<Dual>,
    k: int,
)
    requires
        0 <= k < z.r.len(),
        z.s.len() == z.r.len(),
    ensures
        ({
            let h = value(cu, dt);
            let k1 = derivative_of(m, z);
            let p2 = halfway(z, dt, k1);
            let k2 = derivative_of(m, p2);
            let p3 = halfway(z, dt, k2);
            let k3 = derivative_of(m, p3);
            let p4 = ahead(z, dt, k3);
            let k4 = derivative_of(m, p4);
            let out = step_of(m, dt, w, z);
            &&& 2real * (value(cu, p2.r[k]) - value(cu, z.r[k])) == prod(h, value(cu, k1.r[k]))
            &&& 2real * (value(cu, p3.r[k]) - value(cu, z.r[k])) == prod(h, value(cu, k2.r[k]))
            &&& value(cu, p4.r[k]) - value(cu, z.r[k]) == prod(h, value(cu, k3.r[k]))
            &&& 2real * (value(cu, p2.s[k]) - value(cu, z.s[k])) == prod(h, value(cu, k1.s[k]))
            &&& 2real * (value(cu, p3.s[k]) - value(cu, z.s[k])) == prod(h, value(cu, k2.s[k]))
            &&& value(cu, p4.s[k]) - value(cu, z.s[k]) == prod(h, value(cu, k3.s[k]))
            &&& value(cu, out.r[k]) - value(cu, z.r[k]) == prod(
                h,
                prod(value(cu, w[0]), value(cu, k1.r[k])) + prod(
                    value(cu, w[1]),
                    value(cu, k2.r[k]),
                ) + prod(value(cu, w[2]), value(cu, k3.r[k])) + prod(
                    value(cu, w[3]),
                    value(cu, k4.r[k]),
                ),
            )
            &&& value(cu, out.s[k]) - value(cu, z.s[k]) == prod(
                h,
                prod(value(cu, w[0]), value(cu, k1.s[k])) + prod(
                    value(cu, w[1]),
                    value(cu, k2.s[k]),
                ) + prod(value(cu, w[2]), value(cu, k3.s[k])) + prod(
                    value(cu, w[3]),
                    value(cu, k4.s[k]),
                ),
            )
        }),
{
    broadcast use group_value;

    let h = value(cu, dt);
    let k1 = derivative_of(m, z);
    let k2 = derivative_of(m, halfway(z, dt, k1));
    assert(value(cu, Expr::<Dual>::Ratio(1, 2)) == 1real / 2real);
    lemma_half_of(h, value(cu, k1.r[k]));
    lemma_half_of(h, value(cu, k2.r[k]));
    lemma_half_of(h, value(cu, k1.s[k]));
    lemma_half_of(h, value(cu, k2.s[k]));
}

#[verifier::spinoff_prover]
proof fn lemma_half_of(h: real, k: real)
    ensures
        2real * prod(prod(1real / 2real, h), k) == prod(h, k),
{
    reveal(prod);
    let a = (1real / 2real) * h;
    assert(2real * (a * k) == h * k) by (nonlinear_arith)
        requires
            a == (1real / 2real) * h,
    ;
}

/// The steps of a layer fill a unit of time.
#[verifier::spinoff_prover]
pub proof fn law_steps_fill_a_unit_of_time(cu: Curves, w: KerrWeights<Dual>)
    requires
        w.rk4_n_steps > 0,
    ensures
        prod(value(cu, dt_of(w)), w.rk4_n_steps as real) == 1real,
{
    broadcast use group_value;

    lemma_quotient_undone(1real, w.rk4_n_steps as real);
}

#[verifier::spinoff_prover]
proof fn lemma_square_of_product(x: real, y: real)
    ensures
        (x * y) * (x * y) == (x * x) * (y * y),
{
    assert((x * y) * (x * y) == (x * x) * (y * y)) by (nonlinear_arith);
}

#[verifier::spinoff_prover]
proof fn lemma_square_of_sum(x: real, y: real)
    ensures
        (x + y) * (x + y) == x * x + 2real * (x * y) + y * y,
        (x - y) * (x - y) == x * x - 2real * (x * y) + y * y,
{
    assert((x + y) * (x + y) == x * x + 2real * (x * y) + y * y) by (nonlinear_arith);
    assert((x - y) * (x - y) == x * x - 2real * (x * y) + y * y) by (nonlinear_arith);
}

#[verifier::spinoff_prover]
proof fn lemma_whole_share(x: real, a: real, b: real)
    requires
        a + b == 1real,
    ensures
        x * a + x * b == x,
{
    assert(x * a + x * b == x * (a + b)) by (nonlinear_arith);
}

#[verifier::spinoff_prover]
proof fn lemma_spun(r: real, s: real, c: real, w: real, d: real)
    requires
        prod(c, c) + prod(w, w) == 1real,
    ensures
        ({
            let a = prod(prod(r, c) - prod(s, w), d);
            let b = prod(prod(r, w) + prod(s, c), d);
            prod(a, a) + prod(b, b) == prod(prod(d, d), prod(r, r) + prod(s, s))
        }),
{
    reveal(prod);
    let u = r * c - s * w;
    let v = r * w + s * c;
    lemma_square_of_sum(r * c, s * w);
    lemma_square_of_sum(r * w, s * c);
    lemma_square_of_product(r, c);
    lemma_square_of_product(r, w);
    lemma_square_of_product(s, c);
    lemma_square_of_product(s, w);
    assert((r * c) * (s * w) == (r * w) * (s * c)) by (nonlinear_arith);
    lemma_whole_share(r * r, c * c, w * w);
    lemma_whole_share(s * s, c * c, w * w);
    assert(u * u + v * v == r * r + s * s);
    lemma_square_of_product(u, d);
    lemma_square_of_product(v, d);
    let (p, q, e) = (u * u, v * v, d * d);
    assert(p * e + q * e == e * (p + q)) by (nonlinear_arith);
}

/// The short step turns every band by its frequency and lets its decay leave what it leaves: the
/// energy is multiplied by the square of the decay.
#[verifier::spinoff_prover]
pub proof fn law_short_step_damps_energy(
    cu: Curves,
    p: GpuOdeParams<Dual>,
    x: Seq<Dual>,
    k: int,
)
    requires
        0 <= k < p.n_bands,
        prod(p.cos_w@[k].v, p.cos_w@[k].v) + prod(p.sin_w@[k].v, p.sin_w@[k].v) == 1real,
    ensures
        ({
            let z = spun_of(p, x);
            let (a, b) = (value(cu, z.r[k]), value(cu, z.s[k]));
            let (r, s) = (x[2 * k].v, x[2 * k + 1].v);
            let (c, w, d) = (p.cos_w@[k].v, p.sin_w@[k].v, p.decay@[k].v);
            &&& prod(a, a) + prod(b, b) == prod(prod(d, d), prod(r, r) + prod(s, s))
            &&& a == prod(prod(r, c) - prod(s, w), d)
            &&& b == prod(prod(r, w) + prod(s, c), d)
        }),
{
    broadcast use group_value;

    lemma_spun(x[2 * k].v, x[2 * k + 1].v, p.cos_w@[k].v, p.sin_w@[k].v, p.decay@[k].v);
}

/// The short step then turns every band to first order: by its own energy and the energy of the
/// two bands on either side, each by its coupling.
#[verifier::spinoff_prover]
pub proof fn law_short_step_turns_by_energy(
    cu: Curves,
    p: GpuOdeParams<Dual>,
    x: Seq<Dual>,
    z: spec_fn(int) -> real,
    k: int,
)
    requires
        0 <= k < p.n_bands,
        entries_are(cu, spun_of(p, x), z),
    ensures
        ({
            let n = p.n_bands as int;
            let own = energy_in(z, n, k);
            let around = energy_in(z, n, k - 2) + energy_in(z, n, k - 1) + energy_in(z, n, k + 1)
                + energy_in(z, n, k + 2);
            let turn = prod(own, p.alpha.v) + prod(around, p.beta.v);
            &&& value(cu, perturbed_of(p, x)[2 * k]) == z(2 * k) - prod(turn, z(2 * k + 1))
            &&& value(cu, perturbed_of(p, x)[2 * k + 1]) == z(2 * k + 1) + prod(turn, z(2 * k))
        }),
{
    broadcast use group_value;

    let n = p.n_bands as int;
    let spun = spun_of(p, x);
    let es = energies_of(spun);
    assert forall|j: int| value(cu, #[trigger] padded(es, j)) == energy_in(z, n, j) by {
        if 0 <= j < n {
            assert(value(cu, spun.r[j]) == z(2 * j));
            assert(value(cu, spun.s[j]) == z(2 * j + 1));
        }
    }
    assert(padded(es, k) == es[k]);
    assert(value(cu, spun.r[k]) == z(2 * k));
    assert(value(cu, spun.s[k]) == z(2 * k + 1));
    let turns = turns_of(p.alpha, p.beta, es);
    assert(value(cu, turns[k]) == prod(energy_in(z, n, k), p.alpha.v) + prod(
        energy_in(z, n, k - 2) + energy_in(z, n, k - 1) + (energy_in(z, n, k + 1) + energy_in(
            z,
            n,
            k + 2,
        )),
        p.beta.v,
    ));
    assert((2 * k) / 2 == k && (2 * k + 1) / 2 == k);
}

} // verus!
