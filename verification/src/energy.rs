//! In exact arithmetic the bands lose energy to damping alone: turning leaves a band's energy
//! alone, and mixing only passes energy from band to band.

use vstd::prelude::*;
#[allow(unused_imports)]
use crate::arith::{Expr, Test, pick, zero};
#[allow(unused_imports)]
use crate::exact::{
    Curves, Dual, group_dual, lemma_constants, lemma_pick, lemma_shared, lemma_sign, lemma_three,
    prod, value,
};
#[allow(unused_imports)]
use crate::kerr::{
    Medium, Waves, cross_minus, cross_plus, derivative_of, drift_of, energy_of, exchange_of, gained,
    lost, mixed_of, mixing_of, phi_of,
};
#[allow(unused_imports)]
use crate::ode::{Quartet, law_quartets_are_matched, quartets_of};

verus! {

/// Half the rate at which the energy of band `k` grows along some slopes.
pub open spec fn power_at(cu: Curves, d: Waves<Dual>, z: Waves<Dual>, k: int) -> real {
    prod(value(cu, z.r[k]), value(cu, d.r[k])) + prod(value(cu, z.s[k]), value(cu, d.s[k]))
}

/// Half the rate at which the energy of the first `n` bands grows along some slopes.
pub open spec fn power_of(cu: Curves, d: Waves<Dual>, z: Waves<Dual>, n: int) -> real
    decreases n,
{
    if n <= 0 {
        0real
    } else {
        power_of(cu, d, z, n - 1) + power_at(cu, d, z, n - 1)
    }
}

/// The energies of the first `n` bands, each weighed with the band's damping.
pub open spec fn damped_of(cu: Curves, m: Medium<Dual>, z: Waves<Dual>, n: int) -> real
    decreases n,
{
    if n <= 0 {
        0real
    } else {
        damped_of(cu, m, z, n - 1) + prod(
            value(cu, m.gamma[n - 1]),
            value(cu, energy_of(z.r[n - 1], z.s[n - 1])),
        )
    }
}

/// A band that is damped and turned.
#[verifier::spinoff_prover]
proof fn lemma_turn(g: real, p: real, r: real, s: real)
    ensures
        prod(r, prod(-g, r) - prod(p, s)) + prod(s, prod(-g, s) + prod(p, r)) == -prod(
            g,
            prod(r, r) + prod(s, s),
        ),
{
    lemma_shared(r, prod(-g, r), prod(p, s));
    lemma_shared(s, prod(-g, s), prod(p, r));
    lemma_sign(g, r);
    lemma_sign(g, s);
    lemma_sign(r, prod(g, r));
    lemma_sign(s, prod(g, s));
    lemma_three(r, g, r);
    lemma_three(s, g, s);
    lemma_three(r, p, s);
    lemma_three(s, p, r);
    lemma_sign(r, s);
    lemma_shared(g, prod(r, r), prod(s, s));
}

#[verifier::spinoff_prover]
proof fn lemma_drift(cu: Curves, m: Medium<Dual>, z: Waves<Dual>, n: int)
    requires
        n <= z.r.len(),
    ensures
        power_of(cu, drift_of(m, z), z, n) == -damped_of(cu, m, z, n),
    decreases n,
{
    if n > 0 {
        let k = n - 1;
        lemma_drift(cu, m, z, k);
        let d = drift_of(m, z);
        let (g, p) = (value(cu, m.gamma[k]), value(cu, phi_of(m, z, k)));
        let (r, s) = (value(cu, z.r[k]), value(cu, z.s[k]));
        assert(value(cu, d.r[k]) == prod(-g, r) - prod(p, s) && value(cu, d.s[k]) == prod(-g, s) + prod(
            p,
            r,
        ) && value(cu, energy_of(z.r[k], z.s[k])) == prod(r, r) + prod(s, s)) by {
            broadcast use group_dual;

        }
        lemma_turn(g, p, r, s);
    }
}

/// What a band of a quartet gains.
pub open spec fn gain_at(
    cu: Curves,
    chi: Expr<Dual>,
    z: Waves<Dual>,
    j: int,
    g: Expr<Dual>,
    h: Expr<Dual>,
) -> real {
    prod(value(cu, z.r[j]), prod(value(cu, chi), value(cu, g))) - prod(
        value(cu, z.s[j]),
        prod(value(cu, chi), value(cu, h)),
    )
}

/// Slopes of which one band's gain `chi * g` in one component and lose `chi * h` in the other.
pub open spec fn gained_at(
    chi: Expr<Dual>,
    d: Waves<Dual>,
    j: int,
    g: Expr<Dual>,
    h: Expr<Dual>,
) -> Waves<Dual> {
    Waves {
        r: d.r.update(j, gained(d.r[j], chi, g)),
        s: d.s.update(j, lost(d.s[j], chi, h)),
    }
}

#[verifier::spinoff_prover]
proof fn lemma_power_gain(
    cu: Curves,
    chi: Expr<Dual>,
    z: Waves<Dual>,
    d: Waves<Dual>,
    j: int,
    g: Expr<Dual>,
    h: Expr<Dual>,
    n: int,
)
    requires
        0 <= j < d.r.len(),
        d.r.len() == d.s.len(),
        0 <= n <= d.r.len(),
    ensures
        power_of(cu, gained_at(chi, d, j, g, h), z, n) == power_of(cu, d, z, n) + (if j < n {
            gain_at(cu, chi, z, j, g, h)
        } else {
            0real
        }),
    decreases n,
{
    if n > 0 {
        lemma_power_gain(cu, chi, z, d, j, g, h, n - 1);
        if n - 1 == j {
            let (r, s) = (value(cu, z.r[j]), value(cu, z.s[j]));
            let (u, v) = (prod(value(cu, chi), value(cu, g)), prod(value(cu, chi), value(cu, h)));
            let e = gained_at(chi, d, j, g, h);
            assert(value(cu, e.r[j]) == value(cu, d.r[j]) + u && value(cu, e.s[j]) == value(cu, d.s[j]) - v) by {
                broadcast use group_dual;

            }
            lemma_shared(r, value(cu, d.r[j]), u);
            lemma_shared(s, value(cu, d.s[j]), v);
        }
    }
}

/// What one band of a pair gains from the product of the other pair.
#[verifier::spinoff_prover]
proof fn lemma_give(c: real, ra: real, sa: real, rb: real, sb: real, u: real, v: real)
    ensures
        prod(ra, prod(c, prod(rb, v) - prod(sb, u))) - prod(sa, prod(c, prod(rb, u) + prod(sb, v)))
            == prod(
            c,
            prod(v, prod(ra, rb) - prod(sa, sb)) - prod(u, prod(ra, sb) + prod(sa, rb)),
        ),
{
    let x = prod(rb, v) - prod(sb, u);
    let y = prod(rb, u) + prod(sb, v);
    lemma_three(ra, c, x);
    lemma_three(sa, c, y);
    lemma_shared(c, prod(ra, x), prod(sa, y));
    lemma_shared(ra, prod(rb, v), prod(sb, u));
    lemma_shared(sa, prod(rb, u), prod(sb, v));
    lemma_three(ra, rb, v);
    lemma_three(ra, sb, u);
    lemma_three(sa, rb, u);
    lemma_three(sa, sb, v);
    lemma_sign(prod(ra, rb), v);
    lemma_sign(prod(ra, sb), u);
    lemma_sign(prod(sa, rb), u);
    lemma_sign(prod(sa, sb), v);
    lemma_shared(v, prod(ra, rb), prod(sa, sb));
    lemma_shared(u, prod(ra, sb), prod(sa, rb));
}

/// What the four bands of a quartet gain adds up to nothing.
#[verifier::spinoff_prover]
proof fn lemma_quartet(
    c: real,
    ra: real,
    sa: real,
    rb: real,
    sb: real,
    rc: real,
    sc: real,
    rd: real,
    sd: real,
)
    ensures
        ({
            let ab_re = prod(ra, rb) - prod(sa, sb);
            let ab_im = prod(ra, sb) + prod(sa, rb);
            let cd_re = prod(rc, rd) - prod(sc, sd);
            let cd_im = prod(rc, sd) + prod(sc, rd);
            let a = prod(ra, prod(c, prod(rb, cd_im) - prod(sb, cd_re))) - prod(
                sa,
                prod(c, prod(rb, cd_re) + prod(sb, cd_im)),
            );
            let b = prod(rb, prod(c, prod(ra, cd_im) - prod(sa, cd_re))) - prod(
                sb,
                prod(c, prod(ra, cd_re) + prod(sa, cd_im)),
            );
            let g = prod(rc, prod(c, prod(ab_im, rd) - prod(ab_re, sd))) - prod(
                sc,
                prod(c, prod(ab_re, rd) + prod(ab_im, sd)),
            );
            let h = prod(rd, prod(c, prod(ab_im, rc) - prod(ab_re, sc))) - prod(
                sd,
                prod(c, prod(ab_re, rc) + prod(ab_im, sc)),
            );
            a + b + g + h == 0real
        }),
{
    let ab_re = prod(ra, rb) - prod(sa, sb);
    let ab_im = prod(ra, sb) + prod(sa, rb);
    let cd_re = prod(rc, rd) - prod(sc, sd);
    let cd_im = prod(rc, sd) + prod(sc, rd);
    lemma_give(c, ra, sa, rb, sb, cd_re, cd_im);
    lemma_give(c, rb, sb, ra, sa, cd_re, cd_im);
    lemma_give(c, rc, sc, rd, sd, ab_re, ab_im);
    lemma_give(c, rd, sd, rc, sc, ab_re, ab_im);
    lemma_sign(ra, rb);
    lemma_sign(sa, sb);
    lemma_sign(ra, sb);
    lemma_sign(sa, rb);
    lemma_sign(rc, rd);
    lemma_sign(sc, sd);
    lemma_sign(rc, sd);
    lemma_sign(sc, rd);
    lemma_sign(ab_im, rd);
    lemma_sign(ab_re, sd);
    lemma_sign(ab_re, rd);
    lemma_sign(ab_im, sd);
    lemma_sign(ab_im, rc);
    lemma_sign(ab_re, sc);
    lemma_sign(ab_re, rc);
    lemma_sign(ab_im, sc);
    let x = prod(cd_im, ab_re) - prod(cd_re, ab_im);
    let y = prod(ab_im, cd_re) - prod(ab_re, cd_im);
    lemma_sign(cd_im, ab_re);
    lemma_sign(cd_re, ab_im);
    assert(y == -x);
    lemma_sign(c, x);
}

/// An exchange passes energy on and keeps it.
#[verifier::spinoff_prover]
proof fn lemma_exchange(
    cu: Curves,
    chi: Expr<Dual>,
    z: Waves<Dual>,
    d: Waves<Dual>,
    q: Quartet,
    n: int,
)
    requires
        q.a < q.c < q.d < q.b < n,
        d.r.len() == n,
        d.s.len() == n,
    ensures
        exchange_of(chi, z, d, q).r.len() == n,
        exchange_of(chi, z, d, q).s.len() == n,
        power_of(cu, exchange_of(chi, z, d, q), z, n) == power_of(cu, d, z, n),
{
    let (a, b, c, e) = (q.a as int, q.b as int, q.c as int, q.d as int);
    let (ra, sa, rb, sb) = (z.r[a], z.s[a], z.r[b], z.s[b]);
    let (rc, sc, rd, sd) = (z.r[c], z.s[c], z.r[e], z.s[e]);
    let ab_re = cross_minus(ra, rb, sa, sb);
    let ab_im = cross_plus(ra, sb, sa, rb);
    let cd_re = cross_minus(rc, rd, sc, sd);
    let cd_im = cross_plus(rc, sd, sc, rd);
    let (ga, ha) = (cross_minus(rb, cd_im, sb, cd_re), cross_plus(rb, cd_re, sb, cd_im));
    let (gb, hb) = (cross_minus(ra, cd_im, sa, cd_re), cross_plus(ra, cd_re, sa, cd_im));
    let (gc, hc) = (cross_minus(ab_im, rd, ab_re, sd), cross_plus(ab_re, rd, ab_im, sd));
    let (ge, he) = (cross_minus(ab_im, rc, ab_re, sc), cross_plus(ab_re, rc, ab_im, sc));
    let d1 = gained_at(chi, d, a, ga, ha);
    let d2 = gained_at(chi, d1, b, gb, hb);
    let d3 = gained_at(chi, d2, c, gc, hc);
    let d4 = gained_at(chi, d3, e, ge, he);
    assert(exchange_of(chi, z, d, q) == d4);
    lemma_power_gain(cu, chi, z, d, a, ga, ha, n);
    lemma_power_gain(cu, chi, z, d1, b, gb, hb, n);
    lemma_power_gain(cu, chi, z, d2, c, gc, hc, n);
    lemma_power_gain(cu, chi, z, d3, e, ge, he, n);
    assert(gain_at(cu, chi, z, a, ga, ha) + gain_at(cu, chi, z, b, gb, hb) + gain_at(cu, chi, z, c, gc, hc)
        + gain_at(cu, chi, z, e, ge, he) == 0real) by {
        broadcast use group_dual;

        lemma_quartet(
            value(cu, chi),
            value(cu, ra),
            value(cu, sa),
            value(cu, rb),
            value(cu, sb),
            value(cu, rc),
            value(cu, sc),
            value(cu, rd),
            value(cu, sd),
        );
    }
}

#[verifier::spinoff_prover]
proof fn lemma_mixed(cu: Curves, chi: Expr<Dual>, z: Waves<Dual>, d: Waves<Dual>, n: usize, i: int)
    requires
        d.r.len() == n,
        d.s.len() == n,
        0 <= i <= quartets_of(n as int).len(),
    ensures
        mixed_of(chi, z, d, quartets_of(n as int), i).r.len() == n,
        mixed_of(chi, z, d, quartets_of(n as int), i).s.len() == n,
        power_of(cu, mixed_of(chi, z, d, quartets_of(n as int), i), z, n as int) == power_of(
            cu,
            d,
            z,
            n as int,
        ),
    decreases i,
{
    if i > 0 {
        lemma_mixed(cu, chi, z, d, n, i - 1);
        law_quartets_are_matched(n, i - 1);
        let before = mixed_of(chi, z, d, quartets_of(n as int), i - 1);
        lemma_exchange(cu, chi, z, before, quartets_of(n as int)[i - 1], n as int);
    }
}

/// Slopes that are picked by a test move as much energy as the picked ones.
#[verifier::spinoff_prover]
proof fn lemma_picked_power(
    cu: Curves,
    x: Expr<Dual>,
    d: Waves<Dual>,
    e: Waves<Dual>,
    out: Waves<Dual>,
    z: Waves<Dual>,
    n: int,
)
    requires
        forall|j: int|
            0 <= j < n ==> #[trigger] out.r[j] == pick(
                Test::Equals,
                x,
                zero(),
                d.r[j],
                e.r[j],
            ) && out.s[j] == pick(Test::Equals, x, zero(), d.s[j], e.s[j]),
    ensures
        power_of(cu, out, z, n) == (if value(cu, x) == 0real {
            power_of(cu, d, z, n)
        } else {
            power_of(cu, e, z, n)
        }),
    decreases n,
{
    if n > 0 {
        let j = n - 1;
        lemma_picked_power(cu, x, d, e, out, z, j);
        assert(out.r[j] == pick(Test::Equals, x, zero(), d.r[j], e.r[j]));
        lemma_constants(cu);
        lemma_pick(cu, x, zero(), d.r[j], e.r[j]);
        lemma_pick(cu, x, zero(), d.s[j], e.s[j]);
    }
}

/// In exact arithmetic the bands lose energy to damping alone: along the slopes of the ODE half
/// the rate at which their energy falls is the sum of their energies, each weighed with its
/// damping. Neither the turning of the bands nor their mixing changes it.
#[verifier::spinoff_prover]
pub proof fn law_energy_is_lost_to_damping_alone(cu: Curves, m: Medium<Dual>, z: Waves<Dual>)
    requires
        z.r.len() == z.s.len(),
        z.r.len() <= usize::MAX,
    ensures
        power_of(cu, derivative_of(m, z), z, z.r.len() as int) == -damped_of(cu, m, z, z.r.len() as int),
{
    let n = z.r.len() as int;
    let d = drift_of(m, z);
    lemma_drift(cu, m, z, n);
    if n > 4 {
        let x = mixing_of(m, z);
        lemma_mixed(cu, m.chi, z, d, n as usize, quartets_of(n).len() as int);
        lemma_picked_power(cu, m.chi, d, x, derivative_of(m, z), z, n);
    }
}

} // verus!
