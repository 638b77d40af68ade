//! What formulas mean in exact arithmetic: values that change along some direction, and the way
//! back through a band's step as the transposed derivative of the way forth.

use vstd::prelude::*;
#[allow(unused_imports)]
use crate::arith::{Binary, Expr, Test, Unary, minus, over, pick, plus, times, un, zero};
#[allow(unused_imports)]
use crate::kerr::energy_of;
#[allow(unused_imports)]
use crate::ode_backward::{twice, two};
#[allow(unused_imports)]
use crate::split_band::{
    BandBack, BandMedium, Wave, band_fresh, band_phi, band_points, band_slope, band_slope_back,
    band_step, band_step_back, half_passed, passed, weighed, weighed_share, weight_share,
    weights_back,
};

verus! {

/// A product of exact numbers.
#[verifier::opaque]
pub open spec fn prod(a: real, b: real) -> real {
    a * b
}

/// The inverse of an exact number.
#[verifier::opaque]
pub open spec fn inverse(a: real) -> real {
    1real / a
}

/// The curves that formulas may hold, and the number that circles give. Nothing is known of them
/// here but how their rates follow: an exponential changes by itself, a logarithm by the inverse,
/// a root by the inverse of twice itself, a sine by the cosine, a cosine by the negated sine, a
/// hyperbolic tangent by what its square leaves of one, and an angle by the turn over the square
/// of the distance.
pub struct Curves {
    pub exp: spec_fn(real) -> real,
    pub ln: spec_fn(real) -> real,
    pub root: spec_fn(real) -> real,
    pub sin: spec_fn(real) -> real,
    pub cos: spec_fn(real) -> real,
    pub tanh: spec_fn(real) -> real,
    pub angle: spec_fn(real, real) -> real,
    pub rest: spec_fn(real, real) -> real,
    pub raised: spec_fn(real, real) -> real,
    pub ceiling: spec_fn(real) -> real,
    pub pi: real,
    pub lowest: real,
}

/// A number to a whole power.
pub open spec fn powered(x: real, n: nat) -> real
    decreases n,
{
    if n == 0 {
        1real
    } else {
        prod(powered(x, (n - 1) as nat), x)
    }
}

/// A number and the rate at which it changes along some direction.
#[derive(Clone, Copy)]
pub struct Dual {
    pub v: real,
    pub d: real,
}

/// A number that does not change.
pub open spec fn still(x: real) -> Dual {
    Dual { v: x, d: 0real }
}

/// A comparison of exact numbers.
pub open spec fn holds_of(test: Test, a: real, b: real) -> bool {
    match test {
        Test::Exceeds => a > b,
        Test::AtMost => a <= b,
        Test::Equals => a == b,
    }
}

/// A curve at a number, where it has the given slope.
pub open spec fn curve_at(v: real, slope: real, x: Dual) -> Dual {
    Dual { v, d: prod(slope, x.d) }
}

/// The exact value of a formula and the rate at which it changes. How fast remainders, roundings,
/// powers by a number and powers above the second change is left open.
#[verifier::opaque]
pub open spec fn dual_of(cu: Curves, e: Expr<Dual>) -> Dual
    decreases e,
{
    match e {
        Expr::Val(x) => x,
        Expr::Ratio(n, m) => still(n as real / m as real),
        Expr::Count(n) => still(n as real),
        Expr::Pi => still(cu.pi),
        Expr::Lowest => still(cu.lowest),
        Expr::Un(op, x) => {
            let a = dual_of(cu, *x);
            match op {
                Unary::Negated => Dual { v: -a.v, d: -a.d },
                Unary::Exp => curve_at((cu.exp)(a.v), (cu.exp)(a.v), a),
                Unary::Ln => curve_at((cu.ln)(a.v), inverse(a.v), a),
                Unary::Root => curve_at((cu.root)(a.v), inverse(prod(2real, (cu.root)(a.v))), a),
                Unary::Sin => curve_at((cu.sin)(a.v), (cu.cos)(a.v), a),
                Unary::Cos => curve_at((cu.cos)(a.v), -(cu.sin)(a.v), a),
                Unary::Tanh => curve_at(
                    (cu.tanh)(a.v),
                    1real - prod((cu.tanh)(a.v), (cu.tanh)(a.v)),
                    a,
                ),
                Unary::Abs => if a.v >= 0real {
                    a
                } else {
                    Dual { v: -a.v, d: -a.d }
                },
                Unary::Ceiling => Dual {
                    v: (cu.ceiling)(a.v),
                    d: vstd::pervasive::arbitrary(),
                },
            }
        },
        Expr::Bin(op, x, y) => {
            let (a, b) = (dual_of(cu, *x), dual_of(cu, *y));
            match op {
                Binary::Plus => Dual { v: a.v + b.v, d: a.d + b.d },
                Binary::Minus => Dual { v: a.v - b.v, d: a.d - b.d },
                Binary::Times => Dual { v: prod(a.v, b.v), d: prod(a.d, b.v) + prod(a.v, b.d) },
                Binary::Over => Dual {
                    v: prod(a.v, inverse(b.v)),
                    d: prod(
                        prod(a.d, b.v) - prod(a.v, b.d),
                        inverse(prod(b.v, b.v)),
                    ),
                },
                Binary::Larger => if a.v >= b.v {
                    a
                } else {
                    b
                },
                Binary::Angle => Dual {
                    v: (cu.angle)(a.v, b.v),
                    d: prod(
                        prod(b.v, a.d) - prod(a.v, b.d),
                        inverse(prod(b.v, b.v) + prod(a.v, a.v)),
                    ),
                },
                Binary::Rest => Dual {
                    v: (cu.rest)(a.v, b.v),
                    d: vstd::pervasive::arbitrary(),
                },
                Binary::Raised => Dual {
                    v: (cu.raised)(a.v, b.v),
                    d: vstd::pervasive::arbitrary(),
                },
            }
        },
        Expr::Pow(x, n) => {
            let a = dual_of(cu, *x);
            Dual {
                v: powered(a.v, n as nat),
                d: if n == 2 {
                    prod(a.d, a.v) + prod(a.v, a.d)
                } else {
                    vstd::pervasive::arbitrary()
                },
            }
        },
        Expr::Pick(test, x, y, yes, no) => if holds_of(test, dual_of(cu, *x).v, dual_of(cu, *y).v) {
            dual_of(cu, *yes)
        } else {
            dual_of(cu, *no)
        },
    }
}

/// The exact value of a formula.
pub open spec fn value(cu: Curves, e: Expr<Dual>) -> real {
    dual_of(cu, e).v
}

/// The rate at which a formula changes.
pub open spec fn rate(cu: Curves, e: Expr<Dual>) -> real {
    dual_of(cu, e).d
}

/// A sum.
pub broadcast proof fn lemma_plus(cu: Curves, x: Expr<Dual>, y: Expr<Dual>)
    ensures
        #![trigger value(cu, plus(x, y))]
        #![trigger rate(cu, plus(x, y))]
        value(cu, plus(x, y)) == value(cu, x) + value(cu, y),
        rate(cu, plus(x, y)) == rate(cu, x) + rate(cu, y),
{
    reveal(dual_of);
}

/// A difference.
pub broadcast proof fn lemma_minus(cu: Curves, x: Expr<Dual>, y: Expr<Dual>)
    ensures
        #![trigger value(cu, minus(x, y))]
        #![trigger rate(cu, minus(x, y))]
        value(cu, minus(x, y)) == value(cu, x) - value(cu, y),
        rate(cu, minus(x, y)) == rate(cu, x) - rate(cu, y),
{
    reveal(dual_of);
}

/// A product, which changes by both of its factors.
pub broadcast proof fn lemma_times(cu: Curves, x: Expr<Dual>, y: Expr<Dual>)
    ensures
        #![trigger value(cu, times(x, y))]
        #![trigger rate(cu, times(x, y))]
        value(cu, times(x, y)) == prod(value(cu, x), value(cu, y)),
        rate(cu, times(x, y)) == prod(rate(cu, x), value(cu, y)) + prod(value(cu, x), rate(cu, y)),
{
    reveal(dual_of);
}

/// A number with its sign turned.
pub broadcast proof fn lemma_negated(cu: Curves, x: Expr<Dual>)
    ensures
        #![trigger value(cu, un(Unary::Negated, x))]
        #![trigger rate(cu, un(Unary::Negated, x))]
        value(cu, un(Unary::Negated, x)) == -value(cu, x),
        rate(cu, un(Unary::Negated, x)) == -rate(cu, x),
{
    reveal(dual_of);
}

/// A quotient.
pub proof fn lemma_over(cu: Curves, x: Expr<Dual>, y: Expr<Dual>)
    ensures
        value(cu, over(x, y)) == prod(value(cu, x), inverse(value(cu, y))),
        rate(cu, over(x, y)) == prod(
            prod(rate(cu, x), value(cu, y)) - prod(value(cu, x), rate(cu, y)),
            inverse(prod(value(cu, y), value(cu, y))),
        ),
{
    reveal(dual_of);
}

/// A choice by an equality.
#[verifier::spinoff_prover]
pub proof fn lemma_pick(cu: Curves, x: Expr<Dual>, y: Expr<Dual>, yes: Expr<Dual>, no: Expr<Dual>)
    ensures
        dual_of(cu, pick(Test::Equals, x, y, yes, no)) == (if value(cu, x) == value(cu, y) {
            dual_of(cu, yes)
        } else {
            dual_of(cu, no)
        }),
{
    reveal(dual_of);
}

pub broadcast group group_dual {
    lemma_plus,
    lemma_minus,
    lemma_times,
    lemma_negated,
}

/// The constants of the formulas.
#[verifier::spinoff_prover]
pub proof fn lemma_constants(cu: Curves)
    ensures
        value(cu, two()) == 2real,
        rate(cu, two()) == 0real,
        value(cu, zero()) == 0real,
        rate(cu, zero()) == 0real,
        value(cu, Expr::Ratio(1, 2)) == 1real / 2real,
        rate(cu, Expr::Ratio(1, 2)) == 0real,
{
    reveal(dual_of);
    assert(value(cu, two()) == 2u64 as real / 1u64 as real);
    assert(2u64 as real / 1u64 as real == 2real);
    assert(value(cu, zero()) == 0u64 as real / 1u64 as real);
    assert(value(cu, Expr::Ratio(1, 2)) == 1u64 as real / 2u64 as real);
}

/// A factor that two products share.
#[verifier::spinoff_prover]
pub proof fn lemma_shared(t: real, p: real, q: real)
    ensures
        prod(t, p + q) == prod(t, p) + prod(t, q),
        prod(t, p - q) == prod(t, p) - prod(t, q),
        prod(p + q, t) == prod(p, t) + prod(q, t),
        prod(p - q, t) == prod(p, t) - prod(q, t),
{
    reveal(prod);
    assert((p + q) * t == p * t + q * t) by (nonlinear_arith);
    assert((p - q) * t == p * t - q * t) by (nonlinear_arith);
    assert(t * (p + q) == t * p + t * q) by (nonlinear_arith);
    assert(t * (p - q) == t * p - t * q) by (nonlinear_arith);
}

/// A sign moved out of a product, and factors swapped.
#[verifier::spinoff_prover]
pub proof fn lemma_sign(a: real, b: real)
    ensures
        prod(-a, b) == -prod(a, b),
        prod(a, -b) == -prod(a, b),
        prod(a, b) == prod(b, a),
{
    reveal(prod);
    assert((-a) * b == -(a * b)) by (nonlinear_arith);
    assert(a * (-b) == -(a * b)) by (nonlinear_arith);
    assert(a * b == b * a) by (nonlinear_arith);
}

/// Nothing times anything.
#[verifier::spinoff_prover]
pub proof fn lemma_nothing(x: real)
    ensures
        prod(0real, x) == 0real,
        prod(x, 0real) == 0real,
{
    reveal(prod);
    assert(0real * x == 0real) by (nonlinear_arith);
    assert(x * 0real == 0real) by (nonlinear_arith);
}

/// The order and the grouping of three factors.
#[verifier::spinoff_prover]
pub proof fn lemma_three(a: real, b: real, c: real)
    ensures
        prod(prod(a, b), c) == prod(a, prod(b, c)),
        prod(a, prod(b, c)) == prod(b, prod(a, c)),
        prod(prod(a, b), c) == prod(prod(a, c), b),
{
    reveal(prod);
    assert((a * b) * c == a * (b * c)) by (nonlinear_arith);
    assert(a * (b * c) == b * (a * c)) by (nonlinear_arith);
    assert((a * b) * c == (a * c) * b) by (nonlinear_arith);
}

/// A change moved to the end of a product of four.
#[verifier::spinoff_prover]
proof fn lemma_four(x: real, d: real, a: real, c: real)
    ensures
        prod(x, prod(prod(d, a), c)) == prod(prod(x, prod(a, c)), d),
        prod(x, prod(prod(a, d), c)) == prod(prod(x, prod(a, c)), d),
{
    lemma_three(d, a, c);
    lemma_three(a, d, c);
    lemma_sign(d, a);
    lemma_three(x, d, prod(a, c));
    lemma_sign(d, prod(x, prod(a, c)));
}

/// Twice a product, from a square's two changes.
#[verifier::spinoff_prover]
proof fn lemma_square(x: real, a: real, r: real, d: real, c: real)
    ensures
        prod(x, prod(prod(a, prod(d, r) + prod(r, d)), c)) == prod(
            prod(x, prod(prod(prod(2real, a), r), c)),
            d,
        ),
{
    reveal(prod);
    assert(x * ((a * (d * r + r * d)) * c) == (x * (((2real * a) * r) * c)) * d)
        by (nonlinear_arith);
}

/// Twice a number, from its square's two changes.
#[verifier::spinoff_prover]
pub proof fn lemma_double(k: real, r: real, d: real)
    ensures
        prod(prod(prod(k, 2real), r), d) == prod(k, prod(d, r) + prod(r, d)),
{
    reveal(prod);
    assert(((k * 2real) * r) * d == k * (d * r + r * d)) by (nonlinear_arith);
}

/// The change of a band's turn, paired with a gradient: `c` is the component that is turned.
#[verifier::spinoff_prover]
proof fn lemma_turned_pair(
    x: real,
    c: real,
    r: real,
    s: real,
    a: real,
    b: real,
    n: real,
    e: real,
    dr: real,
    ds: real,
    da: real,
    db: real,
    dn: real,
)
    ensures
        prod(
            x,
            prod(
                (prod(da, e) + prod(
                    a,
                    (prod(dr, r) + prod(r, dr)) + (prod(ds, s) + prod(s, ds)),
                )) + (
                prod(db, n) + prod(b, dn)),
                c,
            ),
        ) == prod(prod(x, prod(e, c)), da) + prod(prod(x, prod(prod(prod(2real, a), r), c)), dr)
            + prod(prod(x, prod(prod(prod(2real, a), s), c)), ds) + prod(prod(x, prod(n, c)), db)
            + prod(prod(x, prod(b, c)), dn),
{
    let u = prod(dr, r) + prod(r, dr);
    let v = prod(ds, s) + prod(s, ds);
    let (t1, t2, t3) = (prod(da, e), prod(a, u), prod(a, v));
    let (t4, t5) = (prod(db, n), prod(b, dn));
    lemma_shared(a, u, v);
    lemma_shared(c, t1 + (t2 + t3), t4 + t5);
    lemma_shared(c, t1, t2 + t3);
    lemma_shared(c, t2, t3);
    lemma_shared(c, t4, t5);
    let (c1, c2, c3) = (prod(t1, c), prod(t2, c), prod(t3, c));
    let (c4, c5) = (prod(t4, c), prod(t5, c));
    lemma_shared(x, c1 + (c2 + c3), c4 + c5);
    lemma_shared(x, c1, c2 + c3);
    lemma_shared(x, c2, c3);
    lemma_shared(x, c4, c5);
    lemma_four(x, da, e, c);
    lemma_square(x, a, r, dr, c);
    lemma_square(x, a, s, ds, c);
    lemma_four(x, db, n, c);
    lemma_four(x, dn, b, c);
}

/// What the gradients of a band's parameters amount to along the direction.
#[verifier::opaque]
pub open spec fn paired_params(cu: Curves, b: BandBack<Dual>, m: BandMedium<Dual>) -> real {
    prod(value(cu, b.d_gamma), rate(cu, m.gamma)) + prod(value(cu, b.d_ns), rate(cu, m.ns)) + prod(
        value(cu, b.d_alpha),
        rate(cu, m.alpha),
    ) + prod(value(cu, b.d_beta), rate(cu, m.beta))
}

/// What the gradients of a band's components amount to along the direction.
#[verifier::opaque]
pub open spec fn paired_wave(cu: Curves, d: Wave<Dual>, z: Wave<Dual>) -> real {
    prod(value(cu, d.r), rate(cu, z.r)) + prod(value(cu, d.s), rate(cu, z.s))
}

/// The gradients of a band's components.
pub open spec fn wave_back(b: BandBack<Dual>) -> Wave<Dual> {
    Wave { r: b.d_r, s: b.d_s }
}

/// Three terms over a shared factor.
#[verifier::spinoff_prover]
pub proof fn lemma_shared_three(p: real, q: real, u: real, t: real)
    ensures
        prod(p + q + u, t) == prod(p, t) + prod(q, t) + prod(u, t),
{
    lemma_shared(t, p + q, u);
    lemma_shared(t, p, q);
}

/// The way back through the slopes of a band is transposed to their derivative.
#[verifier::spinoff_prover]
pub proof fn lemma_slope_back(
    cu: Curves,
    m: BandMedium<Dual>,
    z: Wave<Dual>,
    g: Wave<Dual>,
    b: BandBack<Dual>,
)
    requires
        rate(cu, m.omega) == 0real,
    ensures
        ({
            let out = band_slope_back(m, z, g, b);
            &&& out.d_w == b.d_w
            &&& paired_wave(cu, wave_back(out), z) + paired_params(cu, out, m) == paired_wave(
                cu,
                wave_back(b),
                z,
            ) + paired_params(cu, b, m) + paired_wave(cu, g, band_slope(m, z))
        }),
{
    reveal(paired_wave);
    reveal(paired_params);
    broadcast use group_dual;

    let out = band_slope_back(m, z, g, b);
    let k = band_slope(m, z);
    let (r, s) = (value(cu, z.r), value(cu, z.s));
    let (dr, ds) = (rate(cu, z.r), rate(cu, z.s));
    let (ga, a, be, n) = (value(cu, m.gamma), value(cu, m.alpha), value(cu, m.beta), value(cu, m.ns));
    let (dg, da, db, dn) = (rate(cu, m.gamma), rate(cu, m.alpha), rate(cu, m.beta), rate(cu, m.ns));
    let e = value(cu, energy_of(z.r, z.s));
    let phi = value(cu, band_phi(m, z));
    let dphi = rate(cu, band_phi(m, z));
    let (x, y) = (value(cu, g.r), value(cu, g.s));
    lemma_turned_pair(x, s, r, s, a, be, n, e, dr, ds, da, db, dn);
    lemma_turned_pair(y, r, r, s, a, be, n, e, dr, ds, da, db, dn);
    // The slopes, term by term.
    assert(rate(cu, k.r) == (prod(-dg, r) + prod(-ga, dr)) - (prod(dphi, s) + prod(phi, ds)));
    assert(rate(cu, k.s) == (prod(-dg, s) + prod(-ga, ds)) + (prod(dphi, r) + prod(phi, dr)));
    lemma_shared(x, prod(-dg, r) + prod(-ga, dr), prod(dphi, s) + prod(phi, ds));
    lemma_shared(x, prod(-dg, r), prod(-ga, dr));
    lemma_shared(x, prod(dphi, s), prod(phi, ds));
    lemma_shared(y, prod(-dg, s) + prod(-ga, ds), prod(dphi, r) + prod(phi, dr));
    lemma_shared(y, prod(-dg, s), prod(-ga, ds));
    lemma_shared(y, prod(dphi, r), prod(phi, dr));
    // The gradients, term by term.
    lemma_constants(cu);
    let rs = prod(prod(prod(2real, a), r), s);
    let rr = prod(prod(prod(2real, a), r), r);
    let ss = prod(prod(prod(2real, a), s), s);
    let sr = prod(prod(prod(2real, a), s), r);
    lemma_three(prod(2real, a), r, s);
    assert(rs == sr);
    assert(value(cu, twice(m.alpha, z.r, z.s)) == rs);
    assert(value(cu, twice(m.alpha, z.r, z.r)) == rr);
    assert(value(cu, twice(m.alpha, z.s, z.s)) == ss);
    assert(value(cu, out.d_r) == value(cu, b.d_r) + prod(x, (-ga) - rs) + prod(y, phi + rr));
    assert(value(cu, out.d_s) == value(cu, b.d_s) + prod(x, (-phi) - ss) + prod(y, (-ga) + rs));
    lemma_shared_three(value(cu, b.d_r), prod(x, (-ga) - rs), prod(y, phi + rr), dr);
    lemma_shared_three(value(cu, b.d_s), prod(x, (-phi) - ss), prod(y, (-ga) + rs), ds);
    lemma_shared(x, -ga, rs);
    lemma_shared(y, phi, rr);
    lemma_shared(x, -phi, ss);
    lemma_shared(y, -ga, rs);
    lemma_shared(dr, prod(x, -ga), prod(x, rs));
    lemma_shared(dr, prod(y, phi), prod(y, rr));
    lemma_shared(ds, prod(x, -phi), prod(x, ss));
    lemma_shared(ds, prod(y, -ga), prod(y, rs));
    lemma_three(x, -ga, dr);
    lemma_three(y, -ga, ds);
    lemma_three(x, -phi, ds);
    lemma_sign(phi, ds);
    lemma_sign(x, prod(phi, ds));
    lemma_three(y, phi, dr);
    lemma_gamma_pair(x, dg, r);
    lemma_gamma_pair(y, dg, s);
    lemma_shared_three(value(cu, b.d_gamma), prod(x, -r), prod(y, -s), dg);
    lemma_shared_three(value(cu, b.d_ns), prod(x, prod(-be, s)), prod(y, prod(be, r)), dn);
    lemma_shared_three(value(cu, b.d_alpha), prod(x, prod(-e, s)), prod(y, prod(e, r)), da);
    lemma_shared_three(value(cu, b.d_beta), prod(x, prod(-n, s)), prod(y, prod(n, r)), db);
    lemma_signed_pair(x, be, s, dn);
    lemma_signed_pair(x, e, s, da);
    lemma_signed_pair(x, n, s, db);
    assert(value(cu, out.d_gamma) == value(cu, b.d_gamma) + prod(x, -r) + prod(y, -s));
    assert(value(cu, out.d_ns) == value(cu, b.d_ns) + prod(x, prod(-be, s)) + prod(y, prod(be, r)));
    assert(value(cu, out.d_alpha) == value(cu, b.d_alpha) + prod(x, prod(-e, s)) + prod(y, prod(e, r)));
    assert(value(cu, out.d_beta) == value(cu, b.d_beta) + prod(x, prod(-n, s)) + prod(y, prod(n, r)));
}

#[verifier::spinoff_prover]
proof fn lemma_gamma_pair(x: real, dg: real, r: real)
    ensures
        prod(x, prod(-dg, r)) == prod(prod(x, -r), dg),
{
    lemma_sign(dg, r);
    lemma_sign(x, prod(dg, r));
    lemma_sign(x, r);
    lemma_sign(prod(x, r), dg);
    lemma_three(x, dg, r);
    lemma_three(x, r, dg);
}

#[verifier::spinoff_prover]
proof fn lemma_signed_pair(x: real, b: real, s: real, t: real)
    ensures
        prod(prod(x, prod(-b, s)), t) == -prod(prod(x, prod(b, s)), t),
{
    lemma_sign(b, s);
    lemma_sign(x, prod(b, s));
    lemma_sign(prod(x, prod(b, s)), t);
}

/// Two waves, component by component.
pub open spec fn wave_sum(a: Wave<Dual>, b: Wave<Dual>) -> Wave<Dual> {
    Wave { r: plus(a.r, b.r), s: plus(a.s, b.s) }
}

/// A wave, some way along another.
pub open spec fn wave_along(z: Wave<Dual>, t: Expr<Dual>, k: Wave<Dual>) -> Wave<Dual> {
    Wave { r: plus(z.r, times(t, k.r)), s: plus(z.s, times(t, k.s)) }
}

#[verifier::spinoff_prover]
proof fn lemma_paired_sum(cu: Curves, a: Wave<Dual>, b: Wave<Dual>, z: Wave<Dual>)
    ensures
        paired_wave(cu, wave_sum(a, b), z) == paired_wave(cu, a, z) + paired_wave(cu, b, z),
{
    reveal(paired_wave);
    broadcast use group_dual;

    lemma_shared(rate(cu, z.r), value(cu, a.r), value(cu, b.r));
    lemma_shared(rate(cu, z.s), value(cu, a.s), value(cu, b.s));
}

#[verifier::spinoff_prover]
proof fn lemma_paired_along(cu: Curves, d: Wave<Dual>, z: Wave<Dual>, t: Expr<Dual>, k: Wave<Dual>)
    requires
        rate(cu, t) == 0real,
    ensures
        paired_wave(cu, d, wave_along(z, t, k)) == paired_wave(cu, d, z) + prod(
            value(cu, t),
            paired_wave(cu, d, k),
        ),
{
    reveal(paired_wave);
    broadcast use group_dual;

    let h = value(cu, t);
    lemma_nothing(value(cu, k.r));
    lemma_nothing(value(cu, k.s));
    lemma_shared(value(cu, d.r), rate(cu, z.r), prod(h, rate(cu, k.r)));
    lemma_shared(value(cu, d.s), rate(cu, z.s), prod(h, rate(cu, k.s)));
    lemma_three(value(cu, d.r), h, rate(cu, k.r));
    lemma_three(value(cu, d.s), h, rate(cu, k.s));
    lemma_shared(h, prod(value(cu, d.r), rate(cu, k.r)), prod(value(cu, d.s), rate(cu, k.s)));
}

/// A wave whose components are `f` times those of `d`.
#[verifier::spinoff_prover]
proof fn lemma_paired_scaled(cu: Curves, a: Wave<Dual>, d: Wave<Dual>, f: real, k: Wave<Dual>)
    requires
        value(cu, a.r) == prod(value(cu, d.r), f),
        value(cu, a.s) == prod(value(cu, d.s), f),
    ensures
        paired_wave(cu, a, k) == prod(f, paired_wave(cu, d, k)),
{
    reveal(paired_wave);
    lemma_three(value(cu, d.r), f, rate(cu, k.r));
    lemma_three(value(cu, d.s), f, rate(cu, k.s));
    lemma_shared(f, prod(value(cu, d.r), rate(cu, k.r)), prod(value(cu, d.s), rate(cu, k.s)));
}

/// What the gradients of the four weights amount to along the direction.
#[verifier::opaque]
pub open spec fn paired_weights(cu: Curves, d_w: Seq<Expr<Dual>>, w: Seq<Expr<Dual>>) -> real {
    prod(value(cu, d_w[0]), rate(cu, w[0])) + prod(value(cu, d_w[1]), rate(cu, w[1])) + prod(
        value(cu, d_w[2]),
        rate(cu, w[2]),
    ) + prod(value(cu, d_w[3]), rate(cu, w[3]))
}

/// The part of a step's change that a weight's change makes.
#[verifier::opaque]
spec fn weight_part(cu: Curves, d: Wave<Dual>, h: real, w: Expr<Dual>, k: Wave<Dual>) -> real {
    prod(h, prod(prod(value(cu, d.r), value(cu, k.r)) + prod(value(cu, d.s), value(cu, k.s)), rate(cu, w)))
}

/// The part of a step's change that a slope's change makes.
#[verifier::opaque]
spec fn slope_part(cu: Curves, d: Wave<Dual>, h: real, w: Expr<Dual>, k: Wave<Dual>) -> real {
    prod(prod(h, value(cu, w)), paired_wave(cu, d, k))
}

#[verifier::spinoff_prover]
proof fn lemma_weight_share(
    cu: Curves,
    d: Wave<Dual>,
    dt: Expr<Dual>,
    k: Wave<Dual>,
    before: Expr<Dual>,
    w: Expr<Dual>,
)
    ensures
        prod(value(cu, plus(before, weight_share(d, dt, k))), rate(cu, w)) == prod(value(cu, before), rate(cu, w))
            + weight_part(cu, d, value(cu, dt), w, k),
{
    reveal(weight_part);
    broadcast use group_dual;

    let h = value(cu, dt);
    let (p, q) = (prod(value(cu, d.r), value(cu, k.r)), prod(value(cu, d.s), value(cu, k.s)));
    lemma_shared(rate(cu, w), value(cu, before), value(cu, weight_share(d, dt, k)));
    lemma_three(value(cu, d.r), h, value(cu, k.r));
    lemma_three(value(cu, d.s), h, value(cu, k.s));
    lemma_shared(h, p, q);
    assert(value(cu, weight_share(d, dt, k)) == prod(h, p + q));
    lemma_three(h, p + q, rate(cu, w));
}

#[verifier::spinoff_prover]
proof fn lemma_weights_back(
    cu: Curves,
    p: crate::split_band::BandStep<Dual>,
    dt: Expr<Dual>,
    w: Seq<Expr<Dual>>,
    d: Wave<Dual>,
    d_w: Seq<Expr<Dual>>,
)
    requires
        d_w.len() == 4,
    ensures
        ({
            let h = value(cu, dt);
            let out = weights_back(d, dt, p, d_w);
            &&& out.len() == 4
            &&& paired_weights(cu, out, w) == paired_weights(cu, d_w, w) + weight_part(cu, d, h, w[0], p.k1)
                + weight_part(cu, d, h, w[1], p.k2) + weight_part(cu, d, h, w[2], p.k3) + weight_part(
                cu,
                d,
                h,
                w[3],
                p.k4,
            )
        }),
{
    reveal(paired_weights);
    let out = weights_back(d, dt, p, d_w);
    assert(out[0] == plus(d_w[0], weight_share(d, dt, p.k1)));
    assert(out[1] == plus(d_w[1], weight_share(d, dt, p.k2)));
    assert(out[2] == plus(d_w[2], weight_share(d, dt, p.k3)));
    assert(out[3] == plus(d_w[3], weight_share(d, dt, p.k4)));
    lemma_weight_share(cu, d, dt, p.k1, d_w[0], w[0]);
    lemma_weight_share(cu, d, dt, p.k2, d_w[1], w[1]);
    lemma_weight_share(cu, d, dt, p.k3, d_w[2], w[2]);
    lemma_weight_share(cu, d, dt, p.k4, d_w[3], w[3]);
}

/// The rate that a slope adds to a component.
#[verifier::opaque]
spec fn term_rate(cu: Curves, w: Expr<Dual>, k: Expr<Dual>) -> real {
    prod(rate(cu, w), value(cu, k)) + prod(value(cu, w), rate(cu, k))
}

/// One component after a step.
#[verifier::spinoff_prover]
proof fn lemma_weighed_rate(
    cu: Curves,
    x: Expr<Dual>,
    dt: Expr<Dual>,
    w: Seq<Expr<Dual>>,
    a: Expr<Dual>,
    b: Expr<Dual>,
    c: Expr<Dual>,
    e: Expr<Dual>,
)
    requires
        rate(cu, dt) == 0real,
    ensures
        rate(cu, weighed(x, dt, w, a, b, c, e)) == rate(cu, x) + prod(
            value(cu, dt),
            ((term_rate(cu, w[0], a) + term_rate(cu, w[1], b)) + term_rate(cu, w[2], c)) + term_rate(cu, w[3], e),
        ),
{
    reveal(term_rate);
    broadcast use group_dual;

    let sum = plus(
        plus(plus(times(w[0], a), times(w[1], b)), times(w[2], c)),
        times(w[3], e),
    );
    lemma_nothing(value(cu, sum));
    assert(weighed(x, dt, w, a, b, c, e) == plus(x, times(dt, sum)));
}

/// What a slope adds to a component, paired with its gradient.
#[verifier::spinoff_prover]
proof fn lemma_term(cu: Curves, g: real, h: real, w: Expr<Dual>, k: Expr<Dual>)
    ensures
        prod(g, prod(h, term_rate(cu, w, k))) == prod(h, prod(rate(cu, w), prod(g, value(cu, k)))) + prod(
            prod(h, value(cu, w)),
            prod(g, rate(cu, k)),
        ),
{
    reveal(term_rate);
    let (p, q) = (prod(rate(cu, w), value(cu, k)), prod(value(cu, w), rate(cu, k)));
    lemma_three(g, h, p + q);
    lemma_shared(g, p, q);
    lemma_shared(h, prod(g, p), prod(g, q));
    lemma_three(g, rate(cu, w), value(cu, k));
    lemma_three(g, value(cu, w), rate(cu, k));
    lemma_three(h, value(cu, w), prod(g, rate(cu, k)));
}

/// What a slope adds to a band, paired with gradients.
#[verifier::opaque]
spec fn gain_share(cu: Curves, d: Wave<Dual>, h: real, w: Expr<Dual>, k: Wave<Dual>) -> real {
    prod(value(cu, d.r), prod(h, term_rate(cu, w, k.r))) + prod(value(cu, d.s), prod(h, term_rate(cu, w, k.s)))
}

#[verifier::spinoff_prover]
proof fn lemma_gain_share(cu: Curves, d: Wave<Dual>, h: real, w: Expr<Dual>, k: Wave<Dual>)
    ensures
        gain_share(cu, d, h, w, k) == weight_part(cu, d, h, w, k) + slope_part(cu, d, h, w, k),
{
    reveal(gain_share);
    reveal(weight_part);
    reveal(slope_part);
    reveal(paired_wave);
    let (x, y) = (value(cu, d.r), value(cu, d.s));
    let (p, q) = (prod(x, value(cu, k.r)), prod(y, value(cu, k.s)));
    lemma_term(cu, x, h, w, k.r);
    lemma_term(cu, y, h, w, k.s);
    lemma_shared(rate(cu, w), p, q);
    lemma_sign(rate(cu, w), p);
    lemma_sign(rate(cu, w), q);
    lemma_shared(h, prod(rate(cu, w), p), prod(rate(cu, w), q));
    lemma_shared(prod(h, value(cu, w)), prod(x, rate(cu, k.r)), prod(y, rate(cu, k.s)));
}

/// A sum of five, where four share a factor.
#[verifier::spinoff_prover]
proof fn lemma_five(g: real, h: real, x: real, a: real, b: real, c: real, e: real)
    ensures
        prod(g, x + prod(h, ((a + b) + c) + e)) == prod(g, x) + prod(g, prod(h, a)) + prod(
            g,
            prod(h, b),
        ) + prod(g, prod(h, c)) + prod(g, prod(h, e)),
{
    lemma_shared(h, (a + b) + c, e);
    lemma_shared(h, a + b, c);
    lemma_shared(h, a, b);
    let (p, q, u, v) = (prod(h, a), prod(h, b), prod(h, c), prod(h, e));
    lemma_shared(g, x, ((p + q) + u) + v);
    lemma_shared(g, (p + q) + u, v);
    lemma_shared(g, p + q, u);
    lemma_shared(g, p, q);
}

/// The gradients of a band after a step, paired with how it changes.
#[verifier::spinoff_prover]
proof fn lemma_step_paired(
    cu: Curves,
    d: Wave<Dual>,
    z: Wave<Dual>,
    dt: Expr<Dual>,
    w: Seq<Expr<Dual>>,
    k1: Wave<Dual>,
    k2: Wave<Dual>,
    k3: Wave<Dual>,
    k4: Wave<Dual>,
    out: Wave<Dual>,
)
    requires
        rate(cu, dt) == 0real,
        out.r == weighed(z.r, dt, w, k1.r, k2.r, k3.r, k4.r),
        out.s == weighed(z.s, dt, w, k1.s, k2.s, k3.s, k4.s),
    ensures
        paired_wave(cu, d, out) == paired_wave(cu, d, z) + gain_share(cu, d, value(cu, dt), w[0], k1) + gain_share(
            cu,
            d,
            value(cu, dt),
            w[1],
            k2,
        ) + gain_share(cu, d, value(cu, dt), w[2], k3) + gain_share(cu, d, value(cu, dt), w[3], k4),
{
    reveal(paired_wave);
    reveal(gain_share);
    let h = value(cu, dt);
    lemma_weighed_rate(cu, z.r, dt, w, k1.r, k2.r, k3.r, k4.r);
    lemma_weighed_rate(cu, z.s, dt, w, k1.s, k2.s, k3.s, k4.s);
    lemma_five(
        value(cu, d.r),
        h,
        rate(cu, z.r),
        term_rate(cu, w[0], k1.r),
        term_rate(cu, w[1], k2.r),
        term_rate(cu, w[2], k3.r),
        term_rate(cu, w[3], k4.r),
    );
    lemma_five(
        value(cu, d.s),
        h,
        rate(cu, z.s),
        term_rate(cu, w[0], k1.s),
        term_rate(cu, w[1], k2.s),
        term_rate(cu, w[2], k3.s),
        term_rate(cu, w[3], k4.s),
    );
}

/// What the gradients of a band amount to along the direction, all together.
pub open spec fn paired_band(
    cu: Curves,
    b: BandBack<Dual>,
    m: BandMedium<Dual>,
    w: Seq<Expr<Dual>>,
    z: Wave<Dual>,
) -> real {
    paired_wave(cu, wave_back(b), z) + paired_params(cu, b, m) + paired_weights(cu, b.d_w, w)
}

/// Gradients of nothing amount to nothing.
#[verifier::spinoff_prover]
proof fn lemma_fresh(cu: Curves, b: BandBack<Dual>, m: BandMedium<Dual>, z: Wave<Dual>)
    ensures
        paired_wave(cu, wave_back(band_fresh(b)), z) == 0real,
        paired_params(cu, band_fresh(b), m) == paired_params(cu, b, m),
{
    reveal(paired_wave);
    reveal(paired_params);
    lemma_constants(cu);
    lemma_nothing(rate(cu, z.r));
    lemma_nothing(rate(cu, z.s));
}

/// The gradients that a slope gets of the state after a step.
#[verifier::spinoff_prover]
proof fn lemma_weighed_share(
    cu: Curves,
    d: Wave<Dual>,
    dt: Expr<Dual>,
    w: Expr<Dual>,
    k: Wave<Dual>,
)
    ensures
        paired_wave(cu, weighed_share(d, dt, w), k) == slope_part(cu, d, value(cu, dt), w, k),
{
    reveal(slope_part);
    broadcast use group_dual;

    let f = prod(value(cu, dt), value(cu, w));
    lemma_three(value(cu, d.r), value(cu, dt), value(cu, w));
    lemma_three(value(cu, d.s), value(cu, dt), value(cu, w));
    lemma_paired_scaled(cu, weighed_share(d, dt, w), d, f, k);
}

/// The gradients that a slope gets of the point that it led to, over a whole step.
#[verifier::spinoff_prover]
proof fn lemma_passed(cu: Curves, c: Wave<Dual>, b: BandBack<Dual>, dt: Expr<Dual>, k: Wave<Dual>)
    ensures
        paired_wave(cu, passed(c, b, dt), k) == paired_wave(cu, c, k) + prod(
            value(cu, dt),
            paired_wave(cu, wave_back(b), k),
        ),
{
    let x = Wave { r: times(b.d_r, dt), s: times(b.d_s, dt) };
    assert(value(cu, x.r) == prod(value(cu, b.d_r), value(cu, dt)) && value(cu, x.s) == prod(
        value(cu, b.d_s),
        value(cu, dt),
    )) by {
        broadcast use group_dual;

    }
    lemma_paired_scaled(cu, x, wave_back(b), value(cu, dt), k);
    assert(passed(c, b, dt) == wave_sum(c, x));
    lemma_paired_sum(cu, c, x, k);
}

/// Half a step.
pub open spec fn half_step(dt: Expr<Dual>) -> Expr<Dual> {
    times(Expr::Ratio(1, 2), dt)
}

#[verifier::spinoff_prover]
proof fn lemma_half_step(cu: Curves, dt: Expr<Dual>)
    requires
        rate(cu, dt) == 0real,
    ensures
        rate(cu, half_step(dt)) == 0real,
        value(cu, half_step(dt)) == prod(1real / 2real, value(cu, dt)),
{
    broadcast use group_dual;

    lemma_constants(cu);
    lemma_nothing(value(cu, dt));
    lemma_nothing(1real / 2real);
}

/// The gradients that a slope gets of the point that it led to, over half a step.
#[verifier::spinoff_prover]
proof fn lemma_half_passed(
    cu: Curves,
    c: Wave<Dual>,
    b: BandBack<Dual>,
    dt: Expr<Dual>,
    k: Wave<Dual>,
)
    requires
        rate(cu, dt) == 0real,
    ensures
        paired_wave(cu, half_passed(c, b, dt), k) == paired_wave(cu, c, k) + prod(
            value(cu, half_step(dt)),
            paired_wave(cu, wave_back(b), k),
        ),
{
    let half: Expr<Dual> = Expr::Ratio(1, 2);
    let x = Wave { r: times(times(b.d_r, half), dt), s: times(times(b.d_s, half), dt) };
    lemma_half_step(cu, dt);
    let f = value(cu, half_step(dt));
    assert(value(cu, x.r) == prod(value(cu, b.d_r), f) && value(cu, x.s) == prod(value(cu, b.d_s), f)) by {
        broadcast use group_dual;

        lemma_constants(cu);
        lemma_three(value(cu, b.d_r), 1real / 2real, value(cu, dt));
        lemma_three(value(cu, b.d_s), 1real / 2real, value(cu, dt));
    }
    lemma_paired_scaled(cu, x, wave_back(b), f, k);
    assert(half_passed(c, b, dt) == wave_sum(c, x));
    lemma_paired_sum(cu, c, x, k);
}

/// In exact arithmetic the way back through a step of a band is transposed to the step's
/// derivative: what the gradients after the step amount to along any direction, those before
/// it amount to as well. The direction changes the band, its damping, the energy around it, the
/// two couplings and the four weights.
#[verifier::spinoff_prover]
pub proof fn law_step_back_is_transposed(
    cu: Curves,
    m: BandMedium<Dual>,
    dt: Expr<Dual>,
    w: Seq<Expr<Dual>>,
    z: Wave<Dual>,
    b: BandBack<Dual>,
)
    requires
        rate(cu, m.omega) == 0real,
        rate(cu, dt) == 0real,
        b.d_w.len() == 4,
    ensures
        paired_band(cu, band_step_back(m, dt, w, z, b), m, w, z) == paired_band(
            cu,
            b,
            m,
            w,
            band_step(m, dt, w, z),
        ),
        band_step_back(m, dt, w, z, b).d_w.len() == 4,
{
    let p = band_points(m, dt, z);
    let h = value(cu, dt);
    let q = value(cu, half_step(dt));
    let d = wave_back(b);
    let b0 = BandBack { d_w: weights_back(d, dt, p, b.d_w), ..b };
    let b4 = band_slope_back(m, p.z4, weighed_share(d, dt, w[3]), band_fresh(b0));
    let c3 = passed(weighed_share(d, dt, w[2]), b4, dt);
    let b3 = band_slope_back(m, p.z3, c3, band_fresh(b4));
    let c2 = half_passed(weighed_share(d, dt, w[1]), b3, dt);
    let b2 = band_slope_back(m, p.z2, c2, band_fresh(b3));
    let c1 = half_passed(weighed_share(d, dt, w[0]), b2, dt);
    let b1 = band_slope_back(m, z, c1, band_fresh(b2));
    let out = band_step_back(m, dt, w, z, b);
    lemma_half_step(cu, dt);
    // The weights.
    lemma_weights_back(cu, p, dt, w, d, b.d_w);
    assert(paired_params(cu, b0, m) == paired_params(cu, b, m)) by {
        reveal(paired_params);
    }
    // The four slopes, last to first.
    lemma_slope_back(cu, m, p.z4, weighed_share(d, dt, w[3]), band_fresh(b0));
    lemma_fresh(cu, b0, m, p.z4);
    lemma_weighed_share(cu, d, dt, w[3], p.k4);
    lemma_slope_back(cu, m, p.z3, c3, band_fresh(b4));
    lemma_fresh(cu, b4, m, p.z3);
    lemma_passed(cu, weighed_share(d, dt, w[2]), b4, dt, p.k3);
    lemma_weighed_share(cu, d, dt, w[2], p.k3);
    lemma_slope_back(cu, m, p.z2, c2, band_fresh(b3));
    lemma_fresh(cu, b3, m, p.z2);
    lemma_half_passed(cu, weighed_share(d, dt, w[1]), b3, dt, p.k2);
    lemma_weighed_share(cu, d, dt, w[1], p.k2);
    lemma_slope_back(cu, m, z, c1, band_fresh(b2));
    lemma_fresh(cu, b2, m, z);
    lemma_half_passed(cu, weighed_share(d, dt, w[0]), b2, dt, p.k1);
    lemma_weighed_share(cu, d, dt, w[0], p.k1);
    // The points that the slopes led to.
    assert(p.z4 == wave_along(z, dt, p.k3));
    assert(p.z3 == wave_along(z, half_step(dt), p.k2));
    assert(p.z2 == wave_along(z, half_step(dt), p.k1));
    lemma_paired_along(cu, wave_back(b4), z, dt, p.k3);
    lemma_paired_along(cu, wave_back(b3), z, half_step(dt), p.k2);
    lemma_paired_along(cu, wave_back(b2), z, half_step(dt), p.k1);
    // The gradients before the step.
    let e0 = wave_sum(Wave { r: zero(), s: zero() }, d);
    let e1 = wave_sum(e0, wave_back(b4));
    let e2 = wave_sum(e1, wave_back(b3));
    let e3 = wave_sum(e2, wave_back(b2));
    assert(wave_back(out) == wave_sum(e3, wave_back(b1)));
    lemma_paired_sum(cu, Wave { r: zero(), s: zero() }, d, z);
    lemma_fresh(cu, b, m, z);
    assert(wave_back(band_fresh(b)) == (Wave { r: zero::<Dual>(), s: zero::<Dual>() }));
    lemma_paired_sum(cu, e0, wave_back(b4), z);
    lemma_paired_sum(cu, e1, wave_back(b3), z);
    lemma_paired_sum(cu, e2, wave_back(b2), z);
    lemma_paired_sum(cu, e3, wave_back(b1), z);
    assert(paired_params(cu, out, m) == paired_params(cu, b1, m)) by {
        reveal(paired_params);
    }
    // The step itself.
    lemma_step_paired(cu, d, z, dt, w, p.k1, p.k2, p.k3, p.k4, band_step(m, dt, w, z));
    lemma_gain_share(cu, d, h, w[0], p.k1);
    lemma_gain_share(cu, d, h, w[1], p.k2);
    lemma_gain_share(cu, d, h, w[2], p.k3);
    lemma_gain_share(cu, d, h, w[3], p.k4);
}

} // verus!
