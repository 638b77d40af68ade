//! In exact arithmetic: when series vary, and where their correlation lies.

use vstd::prelude::*;
#[allow(unused_imports)]
use crate::arith::{Expr, Unary, minus, times, total_of, un, zero};
#[allow(unused_imports)]
use crate::exact::{
    Curves, Dual, inverse, lemma_constants, lemma_minus, lemma_nothing, lemma_over, lemma_sign,
    lemma_three, lemma_times, prod, value,
};
#[allow(unused_imports)]
use crate::layers::mean_of;
#[allow(unused_imports)]
use crate::linear_exact::{
    lemma_dot, lemma_fold, lemma_summed_both, lemma_summed_nothing, lemma_summed_same,
    lemma_summed_scaled, summed,
};
#[allow(unused_imports)]
use crate::loss_exact::{lemma_cross, lemma_curves, lemma_inverse, lemma_neutral, lemma_numbers};
#[allow(unused_imports)]
use crate::statistics::{centred_of, codeviation_of, correlation_of};

verus! {

/// A root is not negative, and its square is what it was taken of.
pub open spec fn root_squares(cu: Curves) -> bool {
    forall|x: real|
        x >= 0real ==> #[trigger] (cu.root)(x) >= 0real && prod((cu.root)(x), (cu.root)(x)) == x
}

/// The deviations of two series, multiplied and added up.
pub open spec fn deviations(cu: Curves, xs: Seq<Expr<Dual>>, ys: Seq<Expr<Dual>>) -> real {
    summed(
        |k: int| prod(value(cu, centred_of(xs)[k]), value(cu, centred_of(ys)[k])),
        xs.len() as int,
    )
}

#[verifier::spinoff_prover]
proof fn lemma_codeviation(cu: Curves, xs: Seq<Expr<Dual>>, ys: Seq<Expr<Dual>>)
    requires
        xs.len() == ys.len(),
    ensures
        value(cu, codeviation_of(xs, ys)) == deviations(cu, xs, ys),
{
    lemma_dot(cu, zero(), centred_of(xs), centred_of(ys));
    lemma_constants(cu);
}

/// A sum of squares is not negative, and vanishes only where every entry does.
#[verifier::spinoff_prover]
pub proof fn lemma_squares(f: spec_fn(int) -> real, g: spec_fn(int) -> real, n: int)
    requires
        0 <= n,
        forall|k: int| 0 <= k < n ==> #[trigger] g(k) == prod(f(k), f(k)),
    ensures
        summed(g, n) >= 0real,
        summed(g, n) == 0real ==> forall|k: int| 0 <= k < n ==> #[trigger] f(k) == 0real,
    decreases n,
{
    if n > 0 {
        lemma_squares(f, g, n - 1);
        let x = f(n - 1);
        assert(g(n - 1) == prod(x, x));
        lemma_square(x);
    }
}

#[verifier::spinoff_prover]
pub proof fn lemma_square(x: real)
    ensures
        prod(x, x) >= 0real,
        prod(x, x) == 0real ==> x == 0real,
{
    reveal(prod);
    assert(x * x >= 0real) by (nonlinear_arith);
    assert(x * x == 0real ==> x == 0real) by (nonlinear_arith);
}

/// The square of a difference.
#[verifier::spinoff_prover]
proof fn lemma_less_square(a: real, b: real, l: real)
    ensures
        prod(a - prod(l, b), a - prod(l, b)) == prod(a, a) + (prod(-(l + l), prod(a, b)) + prod(
            prod(l, l),
            prod(b, b),
        )),
{
    reveal(prod);
    let c = l * b;
    assert((a - c) * (a - c) == a * a - (a * c + a * c) + c * c) by (nonlinear_arith);
    assert(a * c == l * (a * b)) by (nonlinear_arith)
        requires
            c == l * b,
    ;
    assert(c * c == (l * l) * (b * b)) by (nonlinear_arith)
        requires
            c == l * b,
    ;
    let p = a * b;
    assert(-(l + l) * p == -(l * p + l * p)) by (nonlinear_arith);
}

/// The square of what two series make is at most what their squares make.
#[verifier::spinoff_prover]
pub proof fn lemma_bound(
    f: spec_fn(int) -> real,
    g: spec_fn(int) -> real,
    fg: spec_fn(int) -> real,
    ff: spec_fn(int) -> real,
    gg: spec_fn(int) -> real,
    n: int,
)
    requires
        0 <= n,
        forall|k: int| 0 <= k < n ==> #[trigger] fg(k) == prod(f(k), g(k)),
        forall|k: int| 0 <= k < n ==> #[trigger] ff(k) == prod(f(k), f(k)),
        forall|k: int| 0 <= k < n ==> #[trigger] gg(k) == prod(g(k), g(k)),
        summed(gg, n) > 0real,
    ensures
        prod(summed(fg, n), summed(fg, n)) <= prod(summed(ff, n), summed(gg, n)),
{
    let (s, a, b) = (summed(fg, n), summed(ff, n), summed(gg, n));
    let l = prod(s, inverse(b));
    let c = -(l + l);
    let e = |k: int| f(k) - prod(l, g(k));
    let ee = |k: int| prod(e(k), e(k));
    let p = |k: int| prod(c, fg(k));
    let q = |k: int| prod(prod(l, l), gg(k));
    let pq = |k: int| p(k) + q(k);
    assert forall|k: int| 0 <= k < n implies #[trigger] ee(k) == ff(k) + pq(k) by {
        lemma_less_square(f(k), g(k), l);
        assert(fg(k) == prod(f(k), g(k)));
        assert(ff(k) == prod(f(k), f(k)));
        assert(gg(k) == prod(g(k), g(k)));
    }
    lemma_squares(e, ee, n);
    lemma_summed_both(ee, ff, pq, n);
    lemma_summed_both(pq, p, q, n);
    lemma_summed_scaled(p, fg, c, n);
    lemma_summed_scaled(q, gg, prod(l, l), n);
    assert(a + (prod(c, s) + prod(prod(l, l), b)) >= 0real);
    lemma_inverse(b);
    lemma_least(s, a, b, inverse(b));
}

#[verifier::spinoff_prover]
proof fn lemma_least(s: real, a: real, b: real, i: real)
    requires
        b > 0real,
        prod(b, i) == 1real,
        a + (prod(-(prod(s, i) + prod(s, i)), s) + prod(prod(prod(s, i), prod(s, i)), b)) >= 0real,
    ensures
        prod(s, s) <= prod(a, b),
{
    reveal(prod);
    let l = s * i;
    let t = l * s;
    assert(-(l + l) * s == -(t + t)) by (nonlinear_arith)
        requires
            t == l * s,
    ;
    assert(l * b == s) by (nonlinear_arith)
        requires
            l == s * i,
            b * i == 1real,
    ;
    assert((l * l) * b == t) by (nonlinear_arith)
        requires
            l * b == s,
            t == l * s,
    ;
    assert(a >= t);
    assert(t * b == s * s) by (nonlinear_arith)
        requires
            t == l * s,
            l * b == s,
    ;
    assert(a * b >= t * b) by (nonlinear_arith)
        requires
            a >= t,
            b > 0real,
    ;
}

/// A quotient whose square is at most one lies between minus one and one.
#[verifier::spinoff_prover]
proof fn lemma_within(s: real, p: real, i: real)
    requires
        p > 0real,
        prod(p, i) == 1real,
        prod(s, s) <= prod(p, p),
    ensures
        -1real <= prod(s, i) <= 1real,
{
    reveal(prod);
    assert(-p <= s <= p) by (nonlinear_arith)
        requires
            s * s <= p * p,
            p > 0real,
    ;
    assert(i > 0real) by (nonlinear_arith)
        requires
            p > 0real,
            p * i == 1real,
    ;
    assert(s * i <= p * i) by (nonlinear_arith)
        requires
            s <= p,
            i > 0real,
    ;
    assert(-(p * i) <= s * i) by (nonlinear_arith)
        requires
            -p <= s,
            i > 0real,
    ;
}

/// What a correlation is made of.
#[verifier::spinoff_prover]
proof fn lemma_correlation(cu: Curves, xs: Seq<Expr<Dual>>, ys: Seq<Expr<Dual>>)
    requires
        xs.len() == ys.len(),
    ensures
        value(cu, correlation_of(xs, ys)) == prod(
            deviations(cu, xs, ys),
            inverse(
                prod(
                    (cu.root)(deviations(cu, xs, xs)),
                    (cu.root)(deviations(cu, ys, ys)),
                ),
            ),
        ),
{
    let (a, b) = (codeviation_of(xs, xs), codeviation_of(ys, ys));
    lemma_codeviation(cu, xs, ys);
    lemma_codeviation(cu, xs, xs);
    lemma_codeviation(cu, ys, ys);
    lemma_curves(cu, a);
    lemma_curves(cu, b);
    lemma_times(cu, un(Unary::Root, a), un(Unary::Root, b));
    lemma_over(cu, codeviation_of(xs, ys), times(un(Unary::Root, a), un(Unary::Root, b)));
}

/// A correlation is the same either way round, in exact arithmetic.
#[verifier::spinoff_prover]
pub proof fn law_correlation_is_symmetric(cu: Curves, xs: Seq<Expr<Dual>>, ys: Seq<Expr<Dual>>)
    requires
        xs.len() == ys.len(),
    ensures
        value(cu, correlation_of(xs, ys)) == value(cu, correlation_of(ys, xs)),
{
    lemma_correlation(cu, xs, ys);
    lemma_correlation(cu, ys, xs);
    lemma_sign((cu.root)(deviations(cu, xs, xs)), (cu.root)(deviations(cu, ys, ys)));
    let f = |k: int| prod(value(cu, centred_of(xs)[k]), value(cu, centred_of(ys)[k]));
    let g = |k: int| prod(value(cu, centred_of(ys)[k]), value(cu, centred_of(xs)[k]));
    assert forall|k: int| 0 <= k < xs.len() implies #[trigger] f(k) == g(k) by {
        lemma_sign(value(cu, centred_of(xs)[k]), value(cu, centred_of(ys)[k]));
    }
    lemma_summed_same(f, g, xs.len() as int);
}

/// The correlation of two series that vary lies between minus one and one, in exact arithmetic.
#[verifier::spinoff_prover]
pub proof fn law_correlation_is_bounded(cu: Curves, xs: Seq<Expr<Dual>>, ys: Seq<Expr<Dual>>)
    requires
        root_squares(cu),
        xs.len() == ys.len(),
        value(cu, codeviation_of(xs, xs)) > 0real,
        value(cu, codeviation_of(ys, ys)) > 0real,
    ensures
        -1real <= value(cu, correlation_of(xs, ys)) <= 1real,
{
    let n = xs.len() as int;
    lemma_correlation(cu, xs, ys);
    lemma_codeviation(cu, xs, xs);
    lemma_codeviation(cu, ys, ys);
    let f = |k: int| value(cu, centred_of(xs)[k]);
    let g = |k: int| value(cu, centred_of(ys)[k]);
    let fg = |k: int| prod(value(cu, centred_of(xs)[k]), value(cu, centred_of(ys)[k]));
    let ff = |k: int| prod(value(cu, centred_of(xs)[k]), value(cu, centred_of(xs)[k]));
    let gg = |k: int| prod(value(cu, centred_of(ys)[k]), value(cu, centred_of(ys)[k]));
    lemma_bound(f, g, fg, ff, gg, n);
    let (s, a, b) = (deviations(cu, xs, ys), deviations(cu, xs, xs), deviations(cu, ys, ys));
    let (u, v) = ((cu.root)(a), (cu.root)(b));
    lemma_roots(u, v, a, b);
    lemma_inverse(prod(u, v));
    lemma_within(s, prod(u, v), inverse(prod(u, v)));
}

#[verifier::spinoff_prover]
proof fn lemma_roots(u: real, v: real, a: real, b: real)
    requires
        u >= 0real,
        v >= 0real,
        prod(u, u) == a,
        prod(v, v) == b,
        a > 0real,
        b > 0real,
    ensures
        prod(u, v) > 0real,
        prod(prod(u, v), prod(u, v)) == prod(a, b),
{
    lemma_cross(u, v, u, v);
    lemma_nothing(u);
    lemma_nothing(v);
    reveal(prod);
    assert(u * v > 0real) by (nonlinear_arith)
        requires
            u > 0real,
            v > 0real,
    ;
}

/// The values of a series are all the same.
pub open spec fn stays(cu: Curves, xs: Seq<Expr<Dual>>) -> bool {
    forall|k: int| 0 <= k < xs.len() ==> value(cu, #[trigger] xs[k]) == value(cu, xs[0])
}

/// The deviations of a series do not add up to less than nothing, and to nothing only where the
/// series stays the same, in exact arithmetic: there is no correlation just where one of two
/// series does not vary.
#[verifier::spinoff_prover]
pub proof fn law_only_constant_series_do_not_vary(cu: Curves, xs: Seq<Expr<Dual>>)
    requires
        0 < xs.len() <= usize::MAX,
    ensures
        value(cu, codeviation_of(xs, xs)) >= 0real,
        value(cu, codeviation_of(xs, xs)) <= 0real <==> stays(cu, xs),
{
    let n = xs.len() as int;
    let cs = centred_of(xs);
    let mean = value(cu, mean_of(xs));
    lemma_codeviation(cu, xs, xs);
    let f = |k: int| value(cu, cs[k]);
    let ff = |k: int| prod(value(cu, cs[k]), value(cu, cs[k]));
    assert forall|k: int| 0 <= k < n implies #[trigger] f(k) == value(cu, xs[k]) - mean by {
        lemma_minus(cu, xs[k], mean_of(xs));
    }
    lemma_squares(f, ff, n);
    if summed(ff, n) == 0real {
        assert forall|k: int| 0 <= k < n implies value(cu, #[trigger] xs[k]) == value(cu, xs[0]) by {
            assert(f(k) == 0real && f(0) == 0real);
        }
    }
    if stays(cu, xs) {
        let v = value(cu, xs[0]);
        let g = |k: int| value(cu, xs[k]);
        lemma_alike(g, v, n);
        lemma_fold(cu, zero(), xs);
        lemma_constants(cu);
        lemma_numbers(cu, n as usize);
        lemma_over(cu, total_of(xs), Expr::Count(n as usize));
        lemma_shared_out(n as real, v);
        assert(mean == v);
        assert forall|k: int| 0 <= k < n implies #[trigger] ff(k) == 0real by {
            assert(value(cu, xs[k]) == v);
            assert(f(k) == 0real);
            lemma_nothing(0real);
        }
        lemma_summed_nothing(ff, n);
    }
}

#[verifier::spinoff_prover]
pub proof fn lemma_alike(g: spec_fn(int) -> real, v: real, n: int)
    requires
        0 <= n,
        forall|k: int| 0 <= k < n ==> #[trigger] g(k) == v,
    ensures
        summed(g, n) == prod(n as real, v),
    decreases n,
{
    lemma_nothing(v);
    if n > 0 {
        lemma_alike(g, v, n - 1);
        assert(g(n - 1) == v);
        let (a, b) = ((n - 1) as real, n as real);
        assert(b == a + 1real);
        reveal(prod);
        assert(b * v == a * v + v) by (nonlinear_arith)
            requires
                b == a + 1real,
        ;
    }
}

#[verifier::spinoff_prover]
pub proof fn lemma_shared_out(n: real, v: real)
    requires
        n > 0real,
    ensures
        prod(prod(n, v), inverse(n)) == v,
{
    lemma_inverse(n);
    lemma_three(n, v, inverse(n));
    lemma_neutral(v);
}

} // verus!
